//! Character-level text utilities shared by the configuration parsers and
//! renderers. All logic works on `Vec<char>` / `Seq<char>`; conversion to and
//! from `String` happens at the edges.

use vstd::prelude::*;

use vstd::slice::{slice_subrange, slice_to_vec};

verus! {

/// The characters of a string, as a vector.
pub fn chars_of(s: &str) -> (v: Vec<char>)
    ensures
        v@ == s@,
{
    let n = s.unicode_len();
    let mut v: Vec<char> = Vec::new();
    let mut i: usize = 0;
    while i < n
        invariant
            n == s@.len(),
            i <= n,
            v@ == s@.subrange(0, i as int),
        decreases n - i,
    {
        v.push(s.get_char(i));
        i += 1;
        proof {
            assert(v@ =~= s@.subrange(0, i as int));
        }
    }
    proof {
        assert(v@ =~= s@);
    }
    v
}

/// Relies on `core::iter::Iterator::collect` for `String`: collecting chars
/// yields the string of exactly those chars, in order.
#[verifier::external_body]
pub fn chars_to_string(v: &Vec<char>) -> (s: String)
    ensures
        s@ == v@,
{
    v.iter().collect()
}

// ---------------------------------------------------------------------------
// whitespace and trimming
// ---------------------------------------------------------------------------

/// The whitespace the parsers strip: blanks, tabs, and carriage returns
/// (which also absorbs CRLF line endings after splitting on `'\n'`).
pub open spec fn spec_is_space(c: char) -> bool {
    c == ' ' || c == '\t' || c == '\r'
}

pub fn is_space(c: char) -> (r: bool)
    ensures
        r == spec_is_space(c),
{
    c == ' ' || c == '\t' || c == '\r'
}

/// `s` without its leading whitespace.
pub open spec fn spec_trim_start(s: Seq<char>) -> Seq<char>
    decreases s.len(),
{
    if s.len() > 0 && spec_is_space(s[0]) {
        spec_trim_start(s.drop_first())
    } else {
        s
    }
}

/// `s` without its trailing whitespace.
pub open spec fn spec_trim_end(s: Seq<char>) -> Seq<char>
    decreases s.len(),
{
    if s.len() > 0 && spec_is_space(s.last()) {
        spec_trim_end(s.drop_last())
    } else {
        s
    }
}

/// `s` without leading and trailing whitespace.
pub open spec fn spec_trim(s: Seq<char>) -> Seq<char> {
    spec_trim_end(spec_trim_start(s))
}

fn trim_start<'a>(v: &'a [char]) -> (r: &'a [char])
    ensures
        r@ == spec_trim_start(v@),
    decreases v@.len(),
{
    if v.len() > 0 && is_space(v[0]) {
        let rest = slice_subrange(v, 1, v.len());
        proof {
            assert(rest@ =~= v@.drop_first());
        }
        trim_start(rest)
    } else {
        v
    }
}

fn trim_end<'a>(v: &'a [char]) -> (r: &'a [char])
    ensures
        r@ == spec_trim_end(v@),
    decreases v@.len(),
{
    if v.len() > 0 && is_space(v[v.len() - 1]) {
        let rest = slice_subrange(v, 0, v.len() - 1);
        proof {
            assert(rest@ =~= v@.drop_last());
        }
        trim_end(rest)
    } else {
        v
    }
}

/// `v` without leading and trailing whitespace.
pub fn trim<'a>(v: &'a [char]) -> (r: &'a [char])
    ensures
        r@ == spec_trim(v@),
{
    trim_end(trim_start(v))
}

// ---------------------------------------------------------------------------
// splitting into lines, and at a separator
// ---------------------------------------------------------------------------

/// Number of chars before the first `'\n'`, or the whole length.
pub open spec fn spec_line_break(s: Seq<char>) -> int
    decreases s.len(),
{
    if s.len() == 0 {
        0
    } else if s[0] == '\n' {
        0
    } else {
        1 + spec_line_break(s.drop_first())
    }
}

proof fn lemma_line_break_bounds(s: Seq<char>)
    ensures
        0 <= spec_line_break(s) <= s.len(),
        spec_line_break(s) < s.len() ==> s[spec_line_break(s)] == '\n',
        forall|j: int| 0 <= j < spec_line_break(s) ==> s[j] != '\n',
    decreases s.len(),
{
    if s.len() > 0 && s[0] != '\n' {
        lemma_line_break_bounds(s.drop_first());
        assert forall|j: int| 0 <= j < spec_line_break(s) implies s[j] != '\n' by {
            if j > 0 {
                assert(s.drop_first()[j - 1] != '\n');
            }
        }
    }
}

/// The lines of `s`: pieces between `'\n'` chars, the final piece dropped
/// when it is empty (so a trailing newline adds no line).
pub open spec fn spec_lines(s: Seq<char>) -> Seq<Seq<char>>
    decreases s.len(),
    via spec_lines_decreases
{
    if s.len() == 0 {
        Seq::empty()
    } else {
        let k = spec_line_break(s);
        if k == s.len() {
            seq![s]
        } else {
            seq![s.subrange(0, k)] + spec_lines(s.subrange(k + 1, s.len() as int))
        }
    }
}

#[via_fn]
proof fn spec_lines_decreases(s: Seq<char>) {
    lemma_line_break_bounds(s);
}

/// Split `v` into its lines.
pub fn split_lines(v: &[char]) -> (r: Vec<Vec<char>>)
    ensures
        r@.map_values(|l: Vec<char>| l@) == spec_lines(v@),
    decreases v@.len(),
{
    if v.len() == 0 {
        let r: Vec<Vec<char>> = Vec::new();
        proof {
            assert(r@.map_values(|l: Vec<char>| l@) =~= spec_lines(v@));
        }
        return r;
    }
    let mut k: usize = 0;
    while k < v.len() && v[k] != '\n'
        invariant
            k <= v@.len(),
            forall|j: int| 0 <= j < k ==> v@[j] != '\n',
        decreases v@.len() - k,
    {
        k += 1;
    }
    proof {
        // k matches the recursive first-break definition.
        lemma_line_break_at(v@, k as int);
    }
    let first = slice_to_vec(slice_subrange(v, 0, k));
    if k == v.len() {
        let mut r: Vec<Vec<char>> = Vec::new();
        r.push(first);
        proof {
            assert(first@ =~= v@);
            assert(spec_lines(v@) == seq![v@]);
            assert(r@.map_values(|l: Vec<char>| l@) =~= spec_lines(v@));
        }
        r
    } else {
        let tail = slice_subrange(v, k + 1, v.len());
        let mut rest = split_lines(tail);
        let ghost rest0 = rest@;
        let mut r: Vec<Vec<char>> = Vec::new();
        r.push(first);
        r.append(&mut rest);
        proof {
            assert(r@ =~= seq![first] + rest0);
            let f = |l: Vec<char>| l@;
            let lhs = r@.map_values(f);
            let rhs = spec_lines(v@);
            assert(rhs == seq![v@.subrange(0, k as int)] + spec_lines(tail@));
            assert(rest0.map_values(f) == spec_lines(tail@));
            assert forall|i: int| 0 <= i < lhs.len() implies lhs[i] == rhs[i] by {
                if i > 0 {
                    assert(lhs[i] == rest0.map_values(f)[i - 1]);
                }
            }
            assert(lhs =~= rhs);
        }
        r
    }
}

proof fn lemma_line_break_at(s: Seq<char>, k: int)
    requires
        0 <= k <= s.len(),
        forall|j: int| 0 <= j < k ==> s[j] != '\n',
        k < s.len() ==> s[k] == '\n',
    ensures
        spec_line_break(s) == k,
    decreases s.len(),
{
    if s.len() > 0 && s[0] != '\n' {
        assert(forall|j: int| 0 <= j < k - 1 ==> s.drop_first()[j] != '\n');
        lemma_line_break_at(s.drop_first(), k - 1);
    }
}

/// Number of chars before the first occurrence of `c`, or the whole length.
pub open spec fn spec_find(s: Seq<char>, c: char) -> int
    decreases s.len(),
{
    if s.len() == 0 {
        0
    } else if s[0] == c {
        0
    } else {
        1 + spec_find(s.drop_first(), c)
    }
}

proof fn lemma_find_at(s: Seq<char>, c: char, k: int)
    requires
        0 <= k <= s.len(),
        forall|j: int| 0 <= j < k ==> s[j] != c,
        k < s.len() ==> s[k] == c,
    ensures
        spec_find(s, c) == k,
    decreases s.len(),
{
    if s.len() > 0 && s[0] != c {
        assert(forall|j: int| 0 <= j < k - 1 ==> s.drop_first()[j] != c);
        lemma_find_at(s.drop_first(), c, k - 1);
    }
}

pub proof fn lemma_find_bounds(s: Seq<char>, c: char)
    ensures
        0 <= spec_find(s, c) <= s.len(),
        spec_find(s, c) < s.len() ==> s[spec_find(s, c)] == c,
        forall|j: int| 0 <= j < spec_find(s, c) ==> s[j] != c,
    decreases s.len(),
{
    if s.len() > 0 && s[0] != c {
        lemma_find_bounds(s.drop_first(), c);
        assert forall|j: int| 0 <= j < spec_find(s, c) implies s[j] != c by {
            if j > 0 {
                assert(s.drop_first()[j - 1] != c);
            }
        }
    }
}

/// The pieces of `s` between occurrences of `c`, empties kept: splitting
/// the empty sequence gives one empty piece, and a trailing separator gives
/// a trailing empty piece.
pub open spec fn spec_split(s: Seq<char>, c: char) -> Seq<Seq<char>>
    decreases s.len(),
    via spec_split_decreases
{
    let k = spec_find(s, c);
    if k == s.len() {
        seq![s]
    } else {
        seq![s.subrange(0, k)] + spec_split(s.subrange(k + 1, s.len() as int), c)
    }
}

#[via_fn]
proof fn spec_split_decreases(s: Seq<char>, c: char) {
    lemma_find_bounds(s, c);
}

/// Split `v` at every occurrence of `c`, empties kept.
pub fn split_all(v: &[char], c: char) -> (r: Vec<Vec<char>>)
    ensures
        r@.map_values(|l: Vec<char>| l@) == spec_split(v@, c),
    decreases v@.len(),
{
    let mut k: usize = 0;
    while k < v.len() && v[k] != c
        invariant
            k <= v@.len(),
            forall|j: int| 0 <= j < k ==> v@[j] != c,
        decreases v@.len() - k,
    {
        k += 1;
    }
    proof {
        lemma_find_at(v@, c, k as int);
    }
    let first = slice_to_vec(slice_subrange(v, 0, k));
    if k == v.len() {
        let mut r: Vec<Vec<char>> = Vec::new();
        r.push(first);
        proof {
            assert(first@ =~= v@);
            assert(r@.map_values(|l: Vec<char>| l@) =~= spec_split(v@, c));
        }
        r
    } else {
        let tail = slice_subrange(v, k + 1, v.len());
        let mut rest = split_all(tail, c);
        let ghost rest0 = rest@;
        let mut r: Vec<Vec<char>> = Vec::new();
        r.push(first);
        r.append(&mut rest);
        proof {
            assert(r@ =~= seq![first] + rest0);
            let f = |l: Vec<char>| l@;
            let lhs = r@.map_values(f);
            let rhs = spec_split(v@, c);
            assert(rhs == seq![v@.subrange(0, k as int)] + spec_split(tail@, c));
            assert(rest0.map_values(f) == spec_split(tail@, c));
            assert forall|i: int| 0 <= i < lhs.len() implies lhs[i] == rhs[i] by {
                if i > 0 {
                    assert(lhs[i] == rest0.map_values(f)[i - 1]);
                }
            }
            assert(lhs =~= rhs);
        }
        r
    }
}

/// The prefix of `xs` before the first piece equal to `stop`.
pub open spec fn spec_take_until(xs: Seq<Seq<char>>, stop: Seq<char>) -> Seq<Seq<char>>
    decreases xs.len(),
{
    if xs.len() == 0 {
        Seq::empty()
    } else if xs[0] == stop {
        Seq::empty()
    } else {
        seq![xs[0]] + spec_take_until(xs.drop_first(), stop)
    }
}

/// The pieces before and after the first occurrence of `c`, if `c` occurs.
pub open spec fn spec_split_once(s: Seq<char>, c: char) -> Option<(Seq<char>, Seq<char>)> {
    let k = spec_find(s, c);
    if k == s.len() {
        None
    } else {
        Some((s.subrange(0, k), s.subrange(k + 1, s.len() as int)))
    }
}

/// Split `v` at the first occurrence of `c`.
pub fn split_once(v: &[char], c: char) -> (r: Option<(Vec<char>, Vec<char>)>)
    ensures
        match r {
            Some((a, b)) => spec_split_once(v@, c) == Some((a@, b@)),
            None => spec_split_once(v@, c) is None,
        },
{
    let mut k: usize = 0;
    while k < v.len() && v[k] != c
        invariant
            k <= v@.len(),
            forall|j: int| 0 <= j < k ==> v@[j] != c,
        decreases v@.len() - k,
    {
        k += 1;
    }
    proof {
        lemma_find_at(v@, c, k as int);
    }
    if k == v.len() {
        None
    } else {
        let a = slice_to_vec(slice_subrange(v, 0, k));
        let b = slice_to_vec(slice_subrange(v, k + 1, v.len()));
        Some((a, b))
    }
}

/// Whether `p` is a prefix of `s`.
pub fn starts_with(v: &[char], p: &[char]) -> (r: bool)
    ensures
        r == p@.is_prefix_of(v@),
{
    if v.len() < p.len() {
        proof {
            assert(!p@.is_prefix_of(v@));
        }
        return false;
    }
    let mut i: usize = 0;
    while i < p.len()
        invariant
            i <= p@.len() <= v@.len(),
            forall|j: int| 0 <= j < i ==> v@[j] == p@[j],
        decreases p@.len() - i,
    {
        if v[i] != p[i] {
            proof {
                assert(!p@.is_prefix_of(v@));
            }
            return false;
        }
        i += 1;
    }
    proof {
        assert(p@ =~= v@.subrange(0, p@.len() as int));
    }
    true
}

/// Whether the two char sequences are equal.
pub fn eq_chars(a: &[char], b: &[char]) -> (r: bool)
    ensures
        r == (a@ == b@),
{
    if a.len() != b.len() {
        return false;
    }
    let mut i: usize = 0;
    while i < a.len()
        invariant
            a@.len() == b@.len(),
            i <= a@.len(),
            forall|j: int| 0 <= j < i ==> a@[j] == b@[j],
        decreases a@.len() - i,
    {
        if a[i] != b[i] {
            return false;
        }
        i += 1;
    }
    proof {
        assert(a@ =~= b@);
    }
    true
}

// ---------------------------------------------------------------------------
// decimal numbers
// ---------------------------------------------------------------------------

/// Whether `c` is a decimal digit.
pub open spec fn spec_is_digit(c: char) -> bool {
    '0' <= c && c <= '9'
}

/// The value of a digit char.
pub open spec fn spec_digit_val(c: char) -> int {
    c as int - '0' as int
}

/// The value of a digit string, folded from the left.
pub open spec fn spec_digits_val(s: Seq<char>) -> int
    decreases s.len(),
{
    if s.len() == 0 {
        0
    } else {
        spec_digits_val(s.drop_last()) * 10 + spec_digit_val(s.last())
    }
}

/// Whether `s` is a valid unsigned decimal numeral that fits in a `u64`:
/// nonempty, all digits, value within range.
pub open spec fn spec_is_u64_numeral(s: Seq<char>) -> bool {
    &&& s.len() > 0
    &&& forall|j: int| 0 <= j < s.len() ==> spec_is_digit(s[j])
    &&& spec_digits_val(s) <= u64::MAX
}

/// Parse an unsigned decimal numeral. Returns `None` exactly when the input
/// is empty, holds a non-digit, or exceeds `u64::MAX`.
pub fn parse_u64(v: &[char]) -> (r: Option<u64>)
    ensures
        match r {
            Some(x) => spec_is_u64_numeral(v@) && x == spec_digits_val(v@),
            None => !spec_is_u64_numeral(v@),
        },
{
    if v.len() == 0 {
        return None;
    }
    let mut acc: u64 = 0;
    let mut i: usize = 0;
    while i < v.len()
        invariant
            i <= v@.len(),
            forall|j: int| 0 <= j < i ==> spec_is_digit(v@[j]),
            acc == spec_digits_val(v@.subrange(0, i as int)),
        decreases v@.len() - i,
    {
        let c = v[i];
        if !('0' <= c && c <= '9') {
            proof {
                assert(!spec_is_digit(v@[i as int]));
            }
            return None;
        }
        let d = (c as u32 - '0' as u32) as u64;
        proof {
            assert(d == spec_digit_val(v@[i as int]));
            assert(v@.subrange(0, i as int + 1).drop_last() =~= v@.subrange(0, i as int));
            assert(v@.subrange(0, i as int + 1).last() == v@[i as int]);
            assert(spec_digits_val(v@.subrange(0, i as int + 1)) == acc * 10 + d);
        }
        if acc > (u64::MAX - d) / 10 {
            proof {
                let q = ((u64::MAX - d) / 10) as int;
                assert((u64::MAX - d) as int == q * 10 + ((u64::MAX - d) as int) % 10);
                assert(acc * 10 >= (q + 1) * 10);
                assert(acc * 10 + d > u64::MAX);
                if spec_is_u64_numeral(v@) {
                    lemma_digits_val_monotone(v@, i as int);
                }
            }
            return None;
        }
        proof {
            let q = ((u64::MAX - d) / 10) as int;
            assert((u64::MAX - d) as int == q * 10 + ((u64::MAX - d) as int) % 10);
            assert(acc * 10 <= q * 10);
            assert(acc * 10 + d <= u64::MAX);
        }
        acc = acc * 10 + d;
        i += 1;
    }
    proof {
        assert(v@.subrange(0, v@.len() as int) =~= v@);
    }
    Some(acc)
}

/// A longer digit prefix never shrinks the value: used to show that once the
/// accumulator would overflow, the whole numeral is out of range.
proof fn lemma_digits_val_monotone(s: Seq<char>, i: int)
    requires
        0 <= i < s.len(),
        forall|j: int| 0 <= j < s.len() ==> spec_is_digit(s[j]),
    ensures
        spec_digits_val(s) >= spec_digits_val(s.subrange(0, i + 1)),
        spec_digits_val(s) >= 0,
    decreases s.len(),
{
    lemma_digits_val_nonneg(s);
    if i + 1 == s.len() {
        assert(s.subrange(0, i + 1) =~= s);
    } else {
        assert(s.drop_last() =~= s.subrange(0, s.len() - 1));
        assert(forall|j: int| 0 <= j < s.drop_last().len() ==> spec_is_digit(s.drop_last()[j]));
        lemma_digits_val_monotone(s.drop_last(), i);
        assert(s.drop_last().subrange(0, i + 1) =~= s.subrange(0, i + 1));
        lemma_digits_val_nonneg(s.drop_last());
        assert(spec_digits_val(s) == spec_digits_val(s.drop_last()) * 10 + spec_digit_val(
            s.last(),
        ));
        assert(spec_digit_val(s.last()) >= 0);
        assert(spec_digits_val(s.drop_last()) * 10 >= spec_digits_val(s.drop_last())) by (
        nonlinear_arith)
            requires
                spec_digits_val(s.drop_last()) >= 0,
        ;
    }
}

proof fn lemma_digits_val_nonneg(s: Seq<char>)
    requires
        forall|j: int| 0 <= j < s.len() ==> spec_is_digit(s[j]),
    ensures
        spec_digits_val(s) >= 0,
    decreases s.len(),
{
    if s.len() > 0 {
        assert(s.drop_last() =~= s.subrange(0, s.len() - 1));
        lemma_digits_val_nonneg(s.drop_last());
        assert(spec_digits_val(s.drop_last()) * 10 >= 0) by (nonlinear_arith)
            requires
                spec_digits_val(s.drop_last()) >= 0,
        ;
    }
}

/// The decimal numeral of `x`, most significant digit first.
pub open spec fn spec_dec_chars(x: int) -> Seq<char>
    decreases x,
{
    if x < 0 {
        Seq::empty()
    } else if x < 10 {
        seq![spec_digit_char(x)]
    } else {
        spec_dec_chars(x / 10).push(spec_digit_char(x % 10))
    }
}

/// The digit char for a value in 0..10.
pub open spec fn spec_digit_char(d: int) -> char {
    if d == 0 {
        '0'
    } else if d == 1 {
        '1'
    } else if d == 2 {
        '2'
    } else if d == 3 {
        '3'
    } else if d == 4 {
        '4'
    } else if d == 5 {
        '5'
    } else if d == 6 {
        '6'
    } else if d == 7 {
        '7'
    } else if d == 8 {
        '8'
    } else {
        '9'
    }
}

fn digit_char(d: u64) -> (c: char)
    requires
        d < 10,
    ensures
        c == spec_digit_char(d as int),
{
    if d == 0 {
        '0'
    } else if d == 1 {
        '1'
    } else if d == 2 {
        '2'
    } else if d == 3 {
        '3'
    } else if d == 4 {
        '4'
    } else if d == 5 {
        '5'
    } else if d == 6 {
        '6'
    } else if d == 7 {
        '7'
    } else if d == 8 {
        '8'
    } else {
        '9'
    }
}

/// Render `x` as decimal chars.
pub fn u64_to_dec_chars(x: u64) -> (v: Vec<char>)
    ensures
        v@ == spec_dec_chars(x as int),
    decreases x,
{
    if x < 10 {
        let mut v: Vec<char> = Vec::new();
        v.push(digit_char(x));
        proof {
            assert(v@ =~= spec_dec_chars(x as int));
        }
        v
    } else {
        let mut v = u64_to_dec_chars(x / 10);
        v.push(digit_char(x % 10));
        v
    }
}

// ---------------------------------------------------------------------------
// building char vectors
// ---------------------------------------------------------------------------

/// Append the chars of `s` to `out`.
pub fn push_str_chars(out: &mut Vec<char>, s: &str)
    ensures
        final(out)@ == old(out)@ + s@,
{
    let mut cs = chars_of(s);
    out.append(&mut cs);
}

/// Append a copy of the chars of `v` to `out`.
pub fn push_chars(out: &mut Vec<char>, v: &[char])
    ensures
        final(out)@ == old(out)@ + v@,
{
    out.extend_from_slice(v);
    proof {
        assert(out@ =~= old(out)@ + v@);
    }
}

} // verus!
