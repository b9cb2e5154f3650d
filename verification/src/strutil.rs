//! Small verified utilities over strings and character sequences that the
//! rest of the library builds on: equality, prefix tests, searching, and
//! decimal rendering/parsing of `u64` values.
use vstd::prelude::*;
use vstd::string::StrSliceExecFns;
use vstd::string::StringExecFns;

verus! {

/// Character-sequence equality of two string slices.
pub fn eq_str(a: &str, b: &str) -> (r: bool)
    ensures
        r == (a@ == b@),
{
    let sa: String = a.to_owned();
    let sb: String = b.to_owned();
    sa == sb
}

/// True when `s` begins with the characters of `p`.
pub open spec fn spec_starts_with(s: Seq<char>, p: Seq<char>) -> bool {
    p.len() <= s.len() && s.subrange(0, p.len() as int) == p
}

/// Prefix test over string slices.
pub fn starts_with(s: &str, p: &str) -> (r: bool)
    ensures
        r == spec_starts_with(s@, p@),
{
    let n: usize = s.unicode_len();
    let m: usize = p.unicode_len();
    if m > n {
        assert(!spec_starts_with(s@, p@));
        return false;
    }
    let mut i: usize = 0;
    while i < m
        invariant
            0 <= i <= m <= n,
            n == s@.len(),
            m == p@.len(),
            forall|k: int| 0 <= k < i ==> s@[k] == p@[k],
        decreases m - i,
    {
        if s.get_char(i) != p.get_char(i) {
            assert(!spec_starts_with(s@, p@));
            return false;
        }
        i = i + 1;
    }
    assert(s@.subrange(0, m as int) =~= p@);
    true
}

/// Index of the first occurrence of `c` in `s` at or after the front;
/// equals `s.len()` when `c` does not occur.
pub open spec fn spec_first_at(s: Seq<char>, c: char) -> int
    decreases s.len(),
{
    if s.len() == 0 {
        0
    } else if s[0] == c {
        0
    } else {
        1 + spec_first_at(s.skip(1), c)
    }
}

pub proof fn lemma_first_at_bounds(s: Seq<char>, c: char)
    ensures
        0 <= spec_first_at(s, c) <= s.len(),
        spec_first_at(s, c) < s.len() ==> s[spec_first_at(s, c)] == c,
        forall|k: int| 0 <= k < spec_first_at(s, c) ==> s[k] != c,
    decreases s.len(),
{
    if s.len() == 0 {
    } else if s[0] == c {
    } else {
        lemma_first_at_bounds(s.skip(1), c);
        assert forall|k: int| 0 <= k < spec_first_at(s, c) implies s[k] != c by {
            if k > 0 {
                assert(s.skip(1)[k - 1] == s[k]);
            }
        }
    }
}

/// Finds the first occurrence of `c` in `s`; returns `s`'s length when absent.
pub fn find_char(s: &str, c: char) -> (j: usize)
    ensures
        j == spec_first_at(s@, c),
{
    proof {
        lemma_first_at_bounds(s@, c);
    }
    let n: usize = s.unicode_len();
    let mut i: usize = 0;
    while i < n
        invariant
            0 <= i <= n,
            n == s@.len(),
            forall|k: int| 0 <= k < i ==> s@[k] != c,
            0 <= spec_first_at(s@, c) <= s@.len(),
            spec_first_at(s@, c) < s@.len() ==> s@[spec_first_at(s@, c)] == c,
            forall|k: int| 0 <= k < spec_first_at(s@, c) ==> s@[k] != c,
        decreases n - i,
    {
        if s.get_char(i) == c {
            assert(i == spec_first_at(s@, c));
            return i;
        }
        i = i + 1;
    }
    assert(n == spec_first_at(s@, c));
    n
}

/// True when `p` occurs in `s` starting at position `i`.
pub open spec fn spec_matches_at(s: Seq<char>, p: Seq<char>, i: int) -> bool {
    0 <= i && i + p.len() <= s.len() && s.subrange(i, i + p.len()) == p
}

/// The first position at or after `i` where `p` occurs in `s`.
pub open spec fn spec_find_sub_from(s: Seq<char>, p: Seq<char>, i: int) -> Option<int>
    decreases s.len() + 1 - i,
{
    if i < 0 || i + p.len() > s.len() {
        None
    } else if spec_matches_at(s, p, i) {
        Some(i)
    } else {
        spec_find_sub_from(s, p, i + 1)
    }
}

/// Finds the first occurrence of `p` in `s`.
pub fn find_sub(s: &str, p: &str) -> (r: Option<usize>)
    ensures
        r is Some <==> spec_find_sub_from(s@, p@, 0) is Some,
        r matches Some(i) ==> spec_find_sub_from(s@, p@, 0) == Some(i as int) && spec_matches_at(
            s@,
            p@,
            i as int,
        ),
{
    let n: usize = s.unicode_len();
    let m: usize = p.unicode_len();
    if m > n {
        return None;
    }
    let mut i: usize = 0;
    while i <= n - m
        invariant
            0 <= i,
            i <= n - m + 1,
            m <= n,
            n == s@.len(),
            m == p@.len(),
            spec_find_sub_from(s@, p@, 0) == spec_find_sub_from(s@, p@, i as int),
        decreases n - i,
    {
        let mut k: usize = 0;
        let mut all_eq = true;
        while k < m && all_eq
            invariant
                0 <= k <= m,
                i + m <= n,
                n == s@.len(),
                m == p@.len(),
                all_eq ==> forall|t: int| 0 <= t < k ==> s@[i + t] == p@[t],
                !all_eq ==> !spec_matches_at(s@, p@, i as int) && m >= 1,
            decreases m - k + (if all_eq { 1int } else { 0int }),
        {
            if s.get_char(i + k) != p.get_char(k) {
                proof {
                    if spec_matches_at(s@, p@, i as int) {
                        assert(s@.subrange(i as int, i + m) == p@);
                        assert(s@.subrange(i as int, i + m)[k as int] == s@[i + k]);
                    }
                }
                all_eq = false;
            } else {
                k = k + 1;
            }
        }
        if all_eq {
            proof {
                assert(s@.subrange(i as int, i + m) =~= p@);
            }
            return Some(i);
        }
        i = i + 1;
    }
    proof {
        assert(spec_find_sub_from(s@, p@, i as int) is None);
    }
    None
}

/// The decimal digit character for `d` (meaningful for `0 <= d <= 9`).
pub open spec fn spec_digit_char(d: int) -> char {
    if d == 0 {
        '0'
    } else if d == 1 {
        '1'
    } else if d == 2 {
        '2'
    } else if d == 3 {
        '3'
    } else if d == 4 {
        '4'
    } else if d == 5 {
        '5'
    } else if d == 6 {
        '6'
    } else if d == 7 {
        '7'
    } else if d == 8 {
        '8'
    } else {
        '9'
    }
}

/// The canonical decimal rendering of a non-negative integer.
pub open spec fn spec_u64_string(n: int) -> Seq<char>
    decreases n,
{
    if n < 10 {
        seq![spec_digit_char(n)]
    } else {
        spec_u64_string(n / 10).push(spec_digit_char(n % 10))
    }
}

fn digit_str(d: u64) -> (r: &'static str)
    requires
        d < 10,
    ensures
        r@ =~= seq![spec_digit_char(d as int)],
{
    if d == 0 {
        proof { reveal_strlit("0"); }
        "0"
    } else if d == 1 {
        proof { reveal_strlit("1"); }
        "1"
    } else if d == 2 {
        proof { reveal_strlit("2"); }
        "2"
    } else if d == 3 {
        proof { reveal_strlit("3"); }
        "3"
    } else if d == 4 {
        proof { reveal_strlit("4"); }
        "4"
    } else if d == 5 {
        proof { reveal_strlit("5"); }
        "5"
    } else if d == 6 {
        proof { reveal_strlit("6"); }
        "6"
    } else if d == 7 {
        proof { reveal_strlit("7"); }
        "7"
    } else if d == 8 {
        proof { reveal_strlit("8"); }
        "8"
    } else {
        proof { reveal_strlit("9"); }
        "9"
    }
}

/// Renders `n` in decimal.
pub fn u64_to_string(n: u64) -> (s: String)
    ensures
        s@ == spec_u64_string(n as int),
    decreases n,
{
    if n < 10 {
        let s = digit_str(n).to_owned();
        s
    } else {
        let mut s = u64_to_string(n / 10);
        let d = digit_str(n % 10);
        s.append(d);
        proof {
            assert(spec_u64_string((n / 10) as int) + seq![spec_digit_char((n % 10) as int)]
                =~= spec_u64_string((n / 10) as int).push(spec_digit_char((n % 10) as int)));
        }
        s
    }
}

/// True when every character of `s` is a decimal digit.
pub open spec fn spec_is_digits(s: Seq<char>) -> bool {
    forall|i: int| 0 <= i < s.len() ==> '0' <= #[trigger] s[i] <= '9'
}

/// The integer value of a digit string (most significant digit first).
pub open spec fn spec_digits_value(s: Seq<char>) -> int
    decreases s.len(),
{
    if s.len() == 0 {
        0
    } else {
        spec_digits_value(s.drop_last()) * 10 + (s.last() as int - '0' as int)
    }
}

/// What `parse_u64` returns: the value of a non-empty digit string when it
/// fits in a `u64`, and nothing otherwise.
pub open spec fn spec_parse_u64(s: Seq<char>) -> Option<u64> {
    if spec_is_digits(s) && s.len() > 0 && spec_digits_value(s) <= u64::MAX {
        Some(spec_digits_value(s) as u64)
    } else {
        None
    }
}

pub proof fn lemma_digits_value_nonneg(s: Seq<char>)
    requires
        spec_is_digits(s),
    ensures
        spec_digits_value(s) >= 0,
    decreases s.len(),
{
    if s.len() > 0 {
        assert(spec_is_digits(s.drop_last())) by {
            assert(forall|i: int| 0 <= i < s.len() - 1 ==> '0' <= #[trigger] s[i] <= '9');
        }
        lemma_digits_value_nonneg(s.drop_last());
    }
}

proof fn lemma_prefix_value_le(s: Seq<char>, i: int)
    requires
        spec_is_digits(s),
        0 <= i <= s.len(),
    ensures
        spec_digits_value(s.take(i)) <= spec_digits_value(s),
    decreases s.len() - i,
{
    if i == s.len() {
        assert(s.take(i) =~= s);
    } else {
        lemma_prefix_value_le(s, i + 1);
        // value(take(i+1)) == value(take(i)) * 10 + digit, and the digit term is >= value(take(i))
        assert(s.take(i + 1).drop_last() =~= s.take(i));
        assert(s.take(i + 1).last() == s[i]);
        assert(spec_is_digits(s.take(i))) by {
            assert(forall|k: int| 0 <= k < i ==> s.take(i)[k] == #[trigger] s[k]);
        }
        lemma_digits_value_nonneg(s.take(i));
    }
}

/// Parses a decimal `u64`; fails on an empty string, a non-digit
/// character, or overflow.
pub fn parse_u64(s: &str) -> (r: Option<u64>)
    ensures
        r == spec_parse_u64(s@),
{
    let n: usize = s.unicode_len();
    if n == 0 {
        return None;
    }
    let mut acc: u64 = 0;
    let mut i: usize = 0;
    while i < n
        invariant
            0 <= i <= n,
            n == s@.len(),
            spec_is_digits(s@.take(i as int)),
            acc == spec_digits_value(s@.take(i as int)),
        decreases n - i,
    {
        let c = s.get_char(i);
        if c < '0' || c > '9' {
            assert(!spec_is_digits(s@));
            return None;
        }
        let d: u64 = (c as u32 as u64) - 48;
        assert(d == c as int - '0' as int);
        if acc > (u64::MAX - d) / 10 {
            proof {
                assert(spec_digits_value(s@.take(i as int + 1)) > u64::MAX) by {
                    assert(s@.take(i as int + 1).drop_last() =~= s@.take(i as int));
                    assert(s@.take(i as int + 1).last() == s@[i as int]);
                    assert(acc >= (u64::MAX - d) / 10 + 1);
                    assert(((u64::MAX - d) / 10 + 1) * 10 + d > u64::MAX) by (nonlinear_arith)
                        requires 0 <= d <= 9,
                    ;
                    assert(acc * 10 + d >= ((u64::MAX - d) / 10 + 1) * 10 + d) by (nonlinear_arith)
                        requires acc >= (u64::MAX - d) / 10 + 1, d >= 0,
                    ;
                }
                if spec_is_digits(s@) {
                    assert(spec_is_digits(s@.take(i as int + 1))) by {
                        assert(forall|k: int| 0 <= k < i + 1 ==> s@.take(i as int + 1)[k] == #[trigger] s@[k]);
                    }
                    lemma_prefix_value_le(s@, i as int + 1);
                }
            }
            return None;
        }
        proof {
            assert(acc <= (u64::MAX - d) / 10);
            assert(acc * 10 <= ((u64::MAX - d) / 10) * 10) by (nonlinear_arith)
                requires acc <= (u64::MAX - d) / 10, acc >= 0,
            ;
            assert(((u64::MAX - d) / 10) * 10 <= u64::MAX - d);
        }
        let next: u64 = acc * 10 + d;
        proof {
            assert(s@.take(i as int + 1).drop_last() =~= s@.take(i as int));
            assert(s@.take(i as int + 1).last() == s@[i as int]);
        }
        acc = next;
        i = i + 1;
    }
    proof {
        assert(s@.take(n as int) =~= s@);
    }
    Some(acc)
}

/// The decimal rendering of `n` is a non-empty digit string whose value is
/// `n` again: rendering and parsing are mutually inverse.
pub proof fn lemma_u64_string_round_trip(n: int)
    requires
        0 <= n <= u64::MAX,
    ensures
        spec_is_digits(spec_u64_string(n)),
        spec_u64_string(n).len() >= 1,
        spec_digits_value(spec_u64_string(n)) == n,
        spec_parse_u64(spec_u64_string(n)) == Some(n as u64),
    decreases n,
{
    if n < 10 {
        let s = spec_u64_string(n);
        assert(s.len() == 1);
        assert(s.drop_last() =~= Seq::<char>::empty());
        assert(spec_digits_value(s.drop_last()) == 0);
        assert(s.last() == spec_digit_char(n));
        assert(spec_digit_char(n) as int - '0' as int == n);
        assert(spec_digits_value(s) == spec_digits_value(s.drop_last()) * 10 + (s.last() as int
            - '0' as int));
        assert('0' <= s[0] <= '9');
    } else {
        lemma_u64_string_round_trip(n / 10);
        let p = spec_u64_string(n / 10);
        let s = spec_u64_string(n);
        assert(s == p.push(spec_digit_char(n % 10)));
        assert(s.drop_last() =~= p);
        assert(s.last() == spec_digit_char(n % 10));
        assert(spec_digit_char(n % 10) as int - '0' as int == n % 10);
        assert(spec_digits_value(s) == spec_digits_value(p) * 10 + n % 10);
        assert((n / 10) * 10 + n % 10 == n);
        assert(spec_is_digits(s)) by {
            assert(forall|i: int| 0 <= i < p.len() ==> s[i] == #[trigger] p[i]);
            assert('0' <= s[s.len() - 1] <= '9');
        }
    }
}

} // verus!
