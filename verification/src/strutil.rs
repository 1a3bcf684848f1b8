//! Character-level string helpers used by the message-definition parser.
//!
//! Whitespace here is ASCII whitespace (space, tab, newline, carriage
//! return, vertical tab, form feed), which is all that ROS message
//! definitions use.
use vstd::prelude::*;

verus! {

// ---------------------------------------------------------------------------
// Whitespace
// ---------------------------------------------------------------------------

pub open spec fn spec_is_space(c: char) -> bool {
    c == ' ' || c == '\t' || c == '\n' || c == '\r' || c == '\u{b}' || c == '\u{c}'
}

pub fn is_space_char(c: char) -> (r: bool)
    ensures
        r == spec_is_space(c),
{
    c == ' ' || c == '\t' || c == '\n' || c == '\r' || c == '\u{b}' || c == '\u{c}'
}

/// First index at or after `from` holding a non-space character (or the
/// length of `s`).
pub open spec fn spec_skip_spaces(s: Seq<char>, from: int) -> int
    decreases s.len() - from,
{
    if from < 0 || from >= s.len() {
        from
    } else if spec_is_space(s[from]) {
        spec_skip_spaces(s, from + 1)
    } else {
        from
    }
}

/// Index just past the last non-space character strictly before `end`.
pub open spec fn spec_trim_end_idx(s: Seq<char>, end: int) -> int
    decreases end,
{
    if end <= 0 {
        0
    } else if spec_is_space(s[end - 1]) {
        spec_trim_end_idx(s, end - 1)
    } else {
        end
    }
}

/// `s` with leading and trailing ASCII whitespace removed.
pub open spec fn spec_trim(s: Seq<char>) -> Seq<char> {
    let a = spec_skip_spaces(s, 0);
    if a == s.len() {
        Seq::empty()
    } else {
        s.subrange(a, spec_trim_end_idx(s, s.len() as int))
    }
}

/// `s` with trailing ASCII whitespace removed.
pub open spec fn spec_trim_end(s: Seq<char>) -> Seq<char> {
    s.subrange(0, spec_trim_end_idx(s, s.len() as int))
}




/// Removes leading and trailing ASCII whitespace.
pub fn trim_str(s: &str) -> (r: String)
    ensures
        r@ == spec_trim(s@),
{
    let n = s.unicode_len();
    let mut a: usize = 0;
    while a < n && is_space_char(s.get_char(a))
        invariant
            0 <= a <= n,
            n == s@.len(),
            spec_skip_spaces(s@, 0) == spec_skip_spaces(s@, a as int),
        decreases n - a,
    {
        a = a + 1;
    }
    assert(spec_skip_spaces(s@, 0) == a as int);
    if a == n {
        return String::new();
    }
    let mut b: usize = n;
    while b > 0 && is_space_char(s.get_char(b - 1))
        invariant
            a < b <= n,
            n == s@.len(),
            !spec_is_space(s@[a as int]),
            spec_trim_end_idx(s@, n as int) == spec_trim_end_idx(s@, b as int),
        decreases b,
    {
        b = b - 1;
    }
    assert(spec_trim_end_idx(s@, n as int) == b as int);
    String::from_str(s.substring_char(a, b))
}

/// Removes trailing ASCII whitespace.
pub fn trim_end_str(s: &str) -> (r: String)
    ensures
        r@ == spec_trim_end(s@),
{
    let n = s.unicode_len();
    let mut b: usize = n;
    while b > 0 && is_space_char(s.get_char(b - 1))
        invariant
            0 <= b <= n,
            n == s@.len(),
            spec_trim_end_idx(s@, n as int) == spec_trim_end_idx(s@, b as int),
        decreases b,
    {
        b = b - 1;
    }
    assert(spec_trim_end_idx(s@, n as int) == b as int);
    String::from_str(s.substring_char(0, b))
}

// ---------------------------------------------------------------------------
// Searching
// ---------------------------------------------------------------------------

/// First index at or after `from` where `c` occurs.
pub open spec fn spec_find_char(s: Seq<char>, c: char, from: int) -> Option<int>
    decreases s.len() - from,
{
    if from < 0 || from >= s.len() {
        None
    } else if s[from] == c {
        Some(from)
    } else {
        spec_find_char(s, c, from + 1)
    }
}

pub proof fn lemma_find_char_bounds(s: Seq<char>, c: char, from: int)
    requires
        0 <= from,
    ensures
        match spec_find_char(s, c, from) {
            Some(i) => from <= i < s.len() && s[i] == c,
            None => true,
        },
    decreases s.len() - from,
{
    if from < s.len() && s[from] != c {
        lemma_find_char_bounds(s, c, from + 1);
    }
}

pub fn find_char(s: &str, c: char, from: usize) -> (r: Option<usize>)
    requires
        from <= s@.len(),
    ensures
        match r {
            Some(i) => Some(i as int) == spec_find_char(s@, c, from as int) && from <= i
                < s@.len() && s@[i as int] == c,
            None => spec_find_char(s@, c, from as int) is None,
        },
{
    let n = s.unicode_len();
    let mut i: usize = from;
    while i < n
        invariant
            from <= i <= n,
            n == s@.len(),
            spec_find_char(s@, c, from as int) == spec_find_char(s@, c, i as int),
        decreases n - i,
    {
        if s.get_char(i) == c {
            return Some(i);
        }
        i = i + 1;
    }
    None
}

/// Last index where `c` occurs.
pub open spec fn spec_rfind_char(s: Seq<char>, c: char) -> Option<int>
    decreases s.len(),
{
    if s.len() == 0 {
        None
    } else if s.last() == c {
        Some(s.len() - 1)
    } else {
        spec_rfind_char(s.drop_last(), c)
    }
}

pub fn rfind_char(s: &str, c: char) -> (r: Option<usize>)
    ensures
        match r {
            Some(i) => Some(i as int) == spec_rfind_char(s@, c) && i < s@.len() && s@[i as int]
                == c,
            None => spec_rfind_char(s@, c) is None,
        },
{
    let n = s.unicode_len();
    let mut b: usize = n;
    assert(s@.subrange(0, n as int) =~= s@);
    while b > 0
        invariant
            0 <= b <= n,
            n == s@.len(),
            spec_rfind_char(s@, c) == spec_rfind_char(s@.subrange(0, b as int), c),
        decreases b,
    {
        if s.get_char(b - 1) == c {
            assert(s@.subrange(0, b as int).last() == s@[b - 1]);
            return Some(b - 1);
        }
        assert(s@.subrange(0, b as int).drop_last() =~= s@.subrange(0, b as int - 1));
        b = b - 1;
    }
    assert(s@.subrange(0, 0) =~= Seq::<char>::empty());
    None
}

// ---------------------------------------------------------------------------
// Splitting into lines
// ---------------------------------------------------------------------------

/// The pieces of `s` from `from` onward, split at every `\n` (the final
/// piece is whatever follows the last `\n`, possibly empty).
pub open spec fn spec_split_lines_from(s: Seq<char>, from: int) -> Seq<Seq<char>>
    recommends
        0 <= from <= s.len(),
    decreases s.len() - from,
    via spec_split_lines_from_dec
{
    match spec_find_char(s, '\n', from) {
        None => seq![s.subrange(from, s.len() as int)],
        Some(i) => seq![s.subrange(from, i)] + spec_split_lines_from(s, i + 1),
    }
}

#[via_fn]
proof fn spec_split_lines_from_dec(s: Seq<char>, from: int) {
    if 0 <= from {
        lemma_find_char_bounds(s, '\n', from);
    }
}

/// Splits `s` at every `\n`.
pub fn split_lines(s: &str) -> (r: Vec<String>)
    ensures
        r.deep_view() == spec_split_lines_from(s@, 0),
{
    let n = s.unicode_len();
    let mut out: Vec<String> = Vec::new();
    let mut pos: usize = 0;
    loop
        invariant
            0 <= pos <= n,
            n == s@.len(),
            spec_split_lines_from(s@, 0) == out.deep_view() + spec_split_lines_from(
                s@,
                pos as int,
            ),
        decreases n - pos,
    {
        match find_char(s, '\n', pos) {
            Some(i) => {
                let piece = String::from_str(s.substring_char(pos, i));
                out.push(piece);
                assert(out.deep_view() =~= out.deep_view().drop_last().push(
                    s@.subrange(pos as int, i as int),
                ));
                pos = i + 1;
                proof {
                    assert(spec_split_lines_from(s@, 0) =~= out.deep_view()
                        + spec_split_lines_from(s@, pos as int));
                }
            },
            None => {
                let piece = String::from_str(s.substring_char(pos, n));
                out.push(piece);
                assert(out.deep_view() =~= out.deep_view().drop_last().push(
                    s@.subrange(pos as int, n as int),
                ));
                assert(spec_split_lines_from(s@, pos as int) =~= seq![
                    s@.subrange(pos as int, n as int),
                ]);
                assert(spec_split_lines_from(s@, 0) =~= out.deep_view());
                return out;
            },
        }
    }
}

// ---------------------------------------------------------------------------
// Miscellaneous
// ---------------------------------------------------------------------------

/// Whether `s` begins with `prefix`.
pub fn str_starts_with(s: &str, prefix: &str) -> (r: bool)
    ensures
        r == (s@.len() >= prefix@.len() && s@.subrange(0, prefix@.len() as int) == prefix@),
{
    let pn = prefix.unicode_len();
    let n = s.unicode_len();
    if n < pn {
        assert(!(s@.len() >= prefix@.len()));
        return false;
    }
    let mut i: usize = 0;
    while i < pn
        invariant
            0 <= i <= pn,
            pn == prefix@.len(),
            n == s@.len(),
            pn <= n,
            forall|j: int| 0 <= j < i ==> s@[j] == prefix@[j],
        decreases pn - i,
    {
        if s.get_char(i) != prefix.get_char(i) {
            assert(s@.subrange(0, prefix@.len() as int)[i as int] != prefix@[i as int]);
            return false;
        }
        i = i + 1;
    }
    assert(s@.subrange(0, prefix@.len() as int) =~= prefix@);
    true
}

// ---------------------------------------------------------------------------
// Unsigned decimal numbers
// ---------------------------------------------------------------------------

/// Whether `s` is one or more decimal digits.
pub open spec fn spec_is_digits(s: Seq<char>) -> bool {
    s.len() > 0 && forall|i: int| 0 <= i < s.len() ==> '0' <= #[trigger] s[i] <= '9'
}

/// The value of a digit string.
pub open spec fn spec_digits_value(s: Seq<char>) -> int
    decreases s.len(),
{
    if s.len() == 0 {
        0
    } else {
        spec_digits_value(s.drop_last()) * 10 + (s.last() as int - '0' as int)
    }
}

/// The number denoted by `s`, where `s` is all digits.
pub open spec fn spec_parse_usize(s: Seq<char>) -> Option<int> {
    if spec_is_digits(s) {
        Some(spec_digits_value(s))
    } else {
        None
    }
}

pub proof fn lemma_digits_value_nonneg(s: Seq<char>)
    requires
        forall|i: int| 0 <= i < s.len() ==> '0' <= #[trigger] s[i] <= '9',
    ensures
        spec_digits_value(s) >= 0,
    decreases s.len(),
{
    if s.len() > 0 {
        lemma_digits_value_nonneg(s.drop_last());
    }
}

/// A digit string's value never shrinks as more digits follow.
pub proof fn lemma_digits_value_prefix(s: Seq<char>, j: int)
    requires
        forall|i: int| 0 <= i < s.len() ==> '0' <= #[trigger] s[i] <= '9',
        0 <= j <= s.len(),
    ensures
        spec_digits_value(s.take(j)) <= spec_digits_value(s),
    decreases s.len() - j,
{
    if j < s.len() {
        lemma_digits_value_prefix(s, j + 1);
        assert(s.take(j + 1).drop_last() =~= s.take(j));
        assert(s.take(j + 1).last() == s[j]);
        lemma_digits_value_nonneg(s.take(j));
    } else {
        assert(s.take(j) =~= s);
    }
}

/// Parses an unsigned decimal number; `None` where `s` is not all
/// digits or the value does not fit in `usize`.
pub fn parse_usize(s: &str) -> (r: Option<usize>)
    ensures
        match r {
            Some(v) => spec_parse_usize(s@) == Some(v as int),
            None => spec_parse_usize(s@) is None || spec_parse_usize(s@)->Some_0 > usize::MAX,
        },
{
    let n = s.unicode_len();
    if n == 0 {
        return None;
    }
    let mut acc: usize = 0;
    let mut i: usize = 0;
    while i < n
        invariant
            0 <= i <= n,
            n == s@.len(),
            forall|j: int| 0 <= j < i ==> '0' <= #[trigger] s@[j] <= '9',
            acc as int == spec_digits_value(s@.take(i as int)),
        decreases n - i,
    {
        let c = s.get_char(i);
        if c < '0' || c > '9' {
            assert(!spec_is_digits(s@));
            return None;
        }
        let d = (c as u32 - '0' as u32) as usize;
        assert(s@.take(i as int + 1).drop_last() =~= s@.take(i as int));
        assert(s@.take(i as int + 1).last() == s@[i as int]);
        let step = match acc.checked_mul(10) {
            Some(t) => t.checked_add(d),
            None => None,
        };
        match step {
            Some(v) => {
                acc = v;
            },
            None => {
                proof {
                    assert(spec_digits_value(s@.take(i as int + 1)) > usize::MAX);
                    if spec_is_digits(s@) {
                        lemma_digits_value_prefix(s@, i as int + 1);
                    }
                }
                return None;
            },
        }
        i = i + 1;
    }
    assert(s@.take(n as int) =~= s@);
    Some(acc)
}

/// Whether two strings hold the same characters.
pub fn str_eq(a: &str, b: &str) -> (r: bool)
    ensures
        r == (a@ == b@),
{
    let an = a.unicode_len();
    let bn = b.unicode_len();
    if an != bn {
        assert(a@ != b@);
        return false;
    }
    let mut i: usize = 0;
    while i < an
        invariant
            0 <= i <= an,
            an == a@.len(),
            an == b@.len(),
            forall|j: int| 0 <= j < i ==> a@[j] == b@[j],
        decreases an - i,
    {
        if a.get_char(i) != b.get_char(i) {
            assert(a@ != b@);
            return false;
        }
        i = i + 1;
    }
    assert(a@ =~= b@);
    true
}

/// An owned copy of `s[a..b]` (character indices).
pub fn own_range(s: &str, a: usize, b: usize) -> (r: String)
    requires
        a <= b <= s@.len(),
    ensures
        r@ == s@.subrange(a as int, b as int),
{
    String::from_str(s.substring_char(a, b))
}

} // verus!
