//! Character-level utilities shared by the parsing components: ASCII case
//! folding, separator splitting, and decimal digit reading and printing.
use vstd::prelude::*;
use vstd::string::StrSliceExecFns;
use vstd::string::StringExecFns;

verus! {

/// Relies on String::push: appends the given character to the end of the string.
#[verifier::external_body]
fn push_char(s: &mut String, c: char)
    ensures
        final(s)@ == old(s)@.push(c),
{
    s.push(c)
}

/// Collect the characters of a string slice into a vector, in order.
pub fn chars_of(s: &str) -> (r: Vec<char>)
    ensures
        r@ == s@,
{
    let n = s.unicode_len();
    let mut r: Vec<char> = Vec::new();
    let mut i: usize = 0;
    while i < n
        invariant
            n == s@.len(),
            i <= n,
            r@ == s@.subrange(0, i as int),
        decreases n - i,
    {
        let c = s.get_char(i);
        r.push(c);
        i = i + 1;
        proof {
            assert(r@ =~= s@.subrange(0, i as int));
        }
    }
    proof {
        assert(r@ =~= s@);
    }
    r
}

/// Build an owned string from a vector of characters, in order.
pub fn string_of(v: &Vec<char>) -> (r: String)
    ensures
        r@ == v@,
{
    let mut r = String::new();
    let mut i: usize = 0;
    while i < v.len()
        invariant
            i <= v@.len(),
            r@ == v@.subrange(0, i as int),
        decreases v@.len() - i,
    {
        push_char(&mut r, v[i]);
        i = i + 1;
        proof {
            assert(r@ =~= v@.subrange(0, i as int));
        }
    }
    proof {
        assert(r@ =~= v@);
    }
    r
}

/// ASCII case folding of a single character: `'A'..='Z'` map to `'a'..='z'`,
/// everything else is unchanged.
pub open spec fn lower_char_spec(c: char) -> char {
    if 'A' <= c && c <= 'Z' {
        ((c as u8) + 32) as char
    } else {
        c
    }
}

/// ASCII case folding of a whole character sequence.
pub open spec fn lower_spec(s: Seq<char>) -> Seq<char> {
    s.map_values(|c: char| lower_char_spec(c))
}

/// Fold one character to ASCII lower case.
pub fn lower_char(c: char) -> (r: char)
    ensures
        r == lower_char_spec(c),
{
    if 'A' <= c && c <= 'Z' {
        ((c as u8) + 32) as char
    } else {
        c
    }
}

/// Fold a character vector to ASCII lower case.
pub fn lower_chars(v: &Vec<char>) -> (r: Vec<char>)
    ensures
        r@ == lower_spec(v@),
{
    let mut r: Vec<char> = Vec::new();
    let mut i: usize = 0;
    while i < v.len()
        invariant
            i <= v@.len(),
            r@.len() == i,
            forall|j: int| 0 <= j < i ==> r@[j] == lower_char_spec(v@[j]),
        decreases v@.len() - i,
    {
        r.push(lower_char(v[i]));
        i = i + 1;
    }
    proof {
        assert(r@ =~= lower_spec(v@));
    }
    r
}

/// Equality of two string slices, decided character by character.
pub fn eq_str(a: &str, b: &str) -> (r: bool)
    ensures
        r == (a@ == b@),
{
    let na = a.unicode_len();
    let nb = b.unicode_len();
    if na != nb {
        proof {
            assert(a@ != b@);
        }
        return false;
    }
    let mut i: usize = 0;
    while i < na
        invariant
            na == a@.len(),
            na == b@.len(),
            i <= na,
            forall|j: int| 0 <= j < i ==> a@[j] == b@[j],
        decreases na - i,
    {
        if a.get_char(i) != b.get_char(i) {
            return false;
        }
        i = i + 1;
    }
    proof {
        assert(a@ =~= b@);
    }
    true
}

/// How many times `sep` occurs in `s`.
pub open spec fn count_occ(s: Seq<char>, sep: char) -> nat
    decreases s.len(),
{
    if s.len() == 0 {
        0
    } else {
        count_occ(s.drop_last(), sep) + if s.last() == sep {
            1nat
        } else {
            0nat
        }
    }
}

/// The sequence obtained by writing `parts` one after the other with `sep`
/// between neighbours.
pub open spec fn joined(parts: Seq<Seq<char>>, sep: char) -> Seq<char>
    decreases parts.len(),
{
    if parts.len() == 0 {
        Seq::empty()
    } else if parts.len() == 1 {
        parts[0]
    } else {
        joined(parts.drop_last(), sep).push(sep) + parts.last()
    }
}

/// `parts` is the (unique) separator-split of `s`: at least one part, no part
/// contains the separator, and joining them with the separator gives `s` back.
pub open spec fn is_split(s: Seq<char>, sep: char, parts: Seq<Seq<char>>) -> bool {
    &&& parts.len() >= 1
    &&& forall|i: int| 0 <= i < parts.len() ==> !parts[i].contains(sep)
    &&& joined(parts, sep) == s
}

/// The separator-split of `s`: meaningful because the split is unique
/// ([`lemma_split_unique`]).
pub open spec fn split_of(s: Seq<char>, sep: char) -> Seq<Seq<char>> {
    choose|parts: Seq<Seq<char>>| is_split(s, sep, parts)
}

/// The separator-split of a sequence is unique.
pub proof fn lemma_split_unique(s: Seq<char>, sep: char, p1: Seq<Seq<char>>, p2: Seq<Seq<char>>)
    requires
        is_split(s, sep, p1),
        is_split(s, sep, p2),
    ensures
        p1 == p2,
    decreases p1.len(),
{
    if p1.len() == 1 && p2.len() == 1 {
        assert(p1[0] == s && p2[0] == s);
        assert(p1 =~~= p2);
    } else if p1.len() == 1 {
        let a2 = joined(p2.drop_last(), sep);
        assert(s == a2.push(sep) + p2.last());
        assert(s[a2.len() as int] == sep);
        assert(p1[0].contains(sep));
        assert(false);
    } else if p2.len() == 1 {
        let a1 = joined(p1.drop_last(), sep);
        assert(s == a1.push(sep) + p1.last());
        assert(s[a1.len() as int] == sep);
        assert(p2[0].contains(sep));
        assert(false);
    } else {
        let a1 = joined(p1.drop_last(), sep);
        let b1 = p1.last();
        let a2 = joined(p2.drop_last(), sep);
        let b2 = p2.last();
        assert(s == a1.push(sep) + b1);
        assert(s == a2.push(sep) + b2);
        assert(s.len() == a1.len() + 1 + b1.len());
        assert(s.len() == a2.len() + 1 + b2.len());
        if b1.len() < b2.len() {
            assert(s[a1.len() as int] == sep);
            assert(a1.len() == s.len() - b1.len() - 1);
            assert(b2[b2.len() - b1.len() - 1] == s[s.len() - b2.len() + (b2.len() - b1.len()
                - 1)]);
            assert(b2.contains(sep)) by {
                assert(b2[b2.len() - b1.len() - 1] == sep);
            }
            assert(false);
        }
        if b2.len() < b1.len() {
            assert(s[a2.len() as int] == sep);
            assert(a2.len() == s.len() - b2.len() - 1);
            assert(b1[b1.len() - b2.len() - 1] == s[s.len() - b1.len() + (b1.len() - b2.len()
                - 1)]);
            assert(b1.contains(sep)) by {
                assert(b1[b1.len() - b2.len() - 1] == sep);
            }
            assert(false);
        }
        assert(b1.len() == b2.len());
        assert(b1 =~= b2) by {
            assert(forall|i: int| 0 <= i < b1.len() ==> b1[i] == s[a1.len() + 1 + i]);
            assert(forall|i: int| 0 <= i < b2.len() ==> b2[i] == s[a2.len() + 1 + i]);
        }
        assert(a1 =~= a2) by {
            assert(forall|i: int| 0 <= i < a1.len() ==> a1[i] == s[i]);
            assert(forall|i: int| 0 <= i < a2.len() ==> a2[i] == s[i]);
        }
        assert(is_split(a1, sep, p1.drop_last())) by {
            assert(forall|i: int| 0 <= i < p1.drop_last().len() ==> p1.drop_last()[i] == p1[i]);
        }
        assert(is_split(a1, sep, p2.drop_last())) by {
            assert(forall|i: int| 0 <= i < p2.drop_last().len() ==> p2.drop_last()[i] == p2[i]);
        }
        lemma_split_unique(a1, sep, p1.drop_last(), p2.drop_last());
        assert(p1 =~~= p2) by {
            assert(p1.len() == p2.len());
            assert(forall|i: int| 0 <= i < p1.len() - 1 ==> p1[i] == p1.drop_last()[i]
                && p2[i] == p2.drop_last()[i]);
        }
    }
}

/// A witnessed split is the canonical one.
pub proof fn lemma_split_of_is(s: Seq<char>, sep: char, parts: Seq<Seq<char>>)
    requires
        is_split(s, sep, parts),
    ensures
        split_of(s, sep) == parts,
{
    let p = choose|p: Seq<Seq<char>>| is_split(s, sep, p);
    assert(is_split(s, sep, p));
    lemma_split_unique(s, sep, p, parts);
}

/// Split a character vector on a separator. The result always has one part
/// more than the number of separator occurrences.
pub fn split_on(v: &Vec<char>, sep: char) -> (r: Vec<Vec<char>>)
    ensures
        is_split(v@, sep, r.deep_view()),
        r.deep_view().len() == count_occ(v@, sep) + 1,
{
    let mut done: Vec<Vec<char>> = Vec::new();
    let mut cur: Vec<char> = Vec::new();
    let mut i: usize = 0;
    while i < v.len()
        invariant
            i <= v@.len(),
            done.deep_view().len() == count_occ(v@.subrange(0, i as int), sep),
            joined(done.deep_view().push(cur@), sep) == v@.subrange(0, i as int),
            forall|j: int| 0 <= j < done.deep_view().len() ==> !done.deep_view()[j].contains(
                sep,
            ),
            !cur@.contains(sep),
        decreases v@.len() - i,
    {
        let ghost pre = v@.subrange(0, i as int);
        let ghost done_pre = done.deep_view();
        let ghost cur_pre = cur@;
        let c = v[i];
        proof {
            assert(v@.subrange(0, i + 1 as int).drop_last() =~= pre);
            assert(v@.subrange(0, i + 1 as int).last() == v@[i as int]);
        }
        if c == sep {
            done.push(cur);
            cur = Vec::new();
            proof {
                assert(done.deep_view() =~~= done_pre.push(cur_pre));
                let parts = done_pre.push(cur_pre).push(cur@);
                assert(done.deep_view().push(cur@) =~~= parts);
                assert(parts.drop_last() =~~= done_pre.push(cur_pre));
                assert(parts.len() >= 2);
                assert(joined(parts, sep) == joined(done_pre.push(cur_pre), sep).push(sep)
                    + cur@);
                assert(joined(parts, sep) =~= pre.push(sep));
                assert(joined(parts, sep) =~= v@.subrange(0, i + 1 as int));
            }
        } else {
            cur.push(c);
            proof {
                let parts = done_pre.push(cur_pre.push(c));
                assert(done.deep_view().push(cur@) =~~= parts);
                assert(parts.drop_last() =~~= done_pre);
                assert(parts.last() == cur_pre.push(c));
                if done_pre.len() == 0 {
                    assert(parts.len() == 1);
                    assert(joined(parts, sep) == cur_pre.push(c));
                    let old_parts = done_pre.push(cur_pre);
                    assert(old_parts.len() == 1);
                    assert(joined(old_parts, sep) == cur_pre);
                    assert(joined(parts, sep) =~= v@.subrange(0, i + 1 as int));
                } else {
                    assert(parts.len() >= 2);
                    assert(joined(parts, sep) == joined(done_pre, sep).push(sep)
                        + cur_pre.push(c));
                    let old_parts = done_pre.push(cur_pre);
                    assert(old_parts.len() >= 2);
                    assert(old_parts.drop_last() =~~= done_pre);
                    assert(joined(old_parts, sep) == joined(done_pre, sep).push(sep) + cur_pre);
                    assert(joined(parts, sep) =~= joined(old_parts, sep).push(c));
                    assert(joined(parts, sep) =~= v@.subrange(0, i + 1 as int));
                }
            }
        }
        i = i + 1;
    }
    let ghost done_pre = done.deep_view();
    let ghost cur_pre = cur@;
    done.push(cur);
    proof {
        assert(v@.subrange(0, v@.len() as int) =~= v@);
        assert(done.deep_view() =~~= done_pre.push(cur_pre));
    }
    done
}

/// A decimal digit character.
pub open spec fn is_digit(c: char) -> bool {
    '0' <= c && c <= '9'
}

/// Numeric value of a decimal digit character.
pub open spec fn digit_val(c: char) -> nat {
    (c as int - '0' as int) as nat
}

/// The digit character for a value below ten.
pub open spec fn digit_char(d: nat) -> char {
    ((d + 48) as u8) as char
}

/// Value of a sequence of decimal digit characters, most significant first.
pub open spec fn dec_value(ds: Seq<char>) -> nat
    decreases ds.len(),
{
    if ds.len() == 0 {
        0
    } else {
        dec_value(ds.drop_last()) * 10 + digit_val(ds.last())
    }
}

/// The decimal digit string of `n`, without leading zeroes (a single `'0'`
/// for zero).
pub open spec fn dec_str(n: nat) -> Seq<char>
    decreases n,
{
    if n < 10 {
        seq![digit_char(n)]
    } else {
        dec_str(n / 10).push(digit_char(n % 10))
    }
}

/// Ten to the `k`-th power.
pub open spec fn pow10(k: nat) -> nat
    decreases k,
{
    if k == 0 {
        1
    } else {
        10 * pow10((k - 1) as nat)
    }
}

/// A string of `k` digits is worth less than ten to the `k`-th.
pub proof fn lemma_dec_value_bound(ds: Seq<char>)
    requires
        forall|i: int| 0 <= i < ds.len() ==> is_digit(ds[i]),
    ensures
        dec_value(ds) < pow10(ds.len()),
    decreases ds.len(),
{
    if ds.len() > 0 {
        lemma_dec_value_bound(ds.drop_last());
    }
}

/// Whether the character at `idx` is a decimal digit.
pub fn is_digit_at(v: &Vec<char>, idx: usize) -> (r: bool)
    requires
        idx < v@.len(),
    ensures
        r == is_digit(v@[idx as int]),
{
    let c = v[idx];
    '0' <= c && c <= '9'
}

/// Read the digits `v[from..to]` as a decimal number, most significant first.
pub fn parse_digits(v: &Vec<char>, from: usize, to: usize) -> (r: usize)
    requires
        from <= to <= v@.len(),
        to - from <= 9,
        forall|i: int| from <= i < to ==> is_digit(v@[i]),
    ensures
        r == dec_value(v@.subrange(from as int, to as int)),
{
    proof {
        reveal_with_fuel(pow10, 10);
    }
    let mut acc: usize = 0;
    let mut i: usize = from;
    while i < to
        invariant
            from <= i <= to <= v@.len(),
            to - from <= 9,
            forall|j: int| from <= j < to ==> is_digit(v@[j]),
            acc == dec_value(v@.subrange(from as int, i as int)),
            acc < pow10((i - from) as nat),
            pow10((to - from) as nat) <= 1000000000,
        decreases to - i,
    {
        let ghost ds = v@.subrange(from as int, i as int);
        let c = v[i];
        let d: usize = (c as usize) - 48;
        proof {
            assert(v@.subrange(from as int, i + 1 as int).drop_last() =~= ds);
            assert(v@.subrange(from as int, i + 1 as int).last() == v@[i as int]);
            assert(d == digit_val(c));
            lemma_pow10_step((i - from) as nat, (to - from) as nat);
        }
        acc = acc * 10 + d;
        i = i + 1;
    }
    acc
}

proof fn lemma_pow10_step(k: nat, m: nat)
    requires
        k < m,
    ensures
        10 * pow10(k) <= pow10(m),
    decreases m,
{
    if k + 1 < m {
        lemma_pow10_step(k, (m - 1) as nat);
        lemma_pow10_pos((m - 1) as nat);
    }
}

proof fn lemma_pow10_pos(k: nat)
    ensures
        pow10(k) >= 1,
    decreases k,
{
    if k > 0 {
        lemma_pow10_pos((k - 1) as nat);
    }
}

/// The digit character for a value below ten.
pub fn digit_char_of(d: usize) -> (r: char)
    requires
        d < 10,
    ensures
        r == digit_char(d as nat),
{
    ((d as u8) + 48) as char
}

/// Append the decimal digit string of `n` to `out`.
pub fn push_dec(n: usize, out: &mut Vec<char>)
    ensures
        final(out)@ == old(out)@ + dec_str(n as nat),
    decreases n,
{
    if n < 10 {
        out.push(digit_char_of(n));
        proof {
            assert(out@ =~= old(out)@ + dec_str(n as nat));
        }
    } else {
        push_dec(n / 10, out);
        out.push(digit_char_of(n % 10));
        proof {
            assert(out@ =~= old(out)@ + dec_str(n as nat));
        }
    }
}

} // verus!

