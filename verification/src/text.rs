//! Verified text utilities shared by the parsers of this crate.
//!
//! Everything is specified over `Seq<char>`, the view of `&str` and `String`.

use vstd::prelude::*;
use vstd::string::*;

verus! {

/// The whitespace characters this crate trims: space, tab and line breaks.
pub open spec fn is_space(c: char) -> bool {
    c == ' ' || c == '\t' || c == '\n' || c == '\r'
}

pub open spec fn starts_with(s: Seq<char>, p: Seq<char>) -> bool {
    p.len() <= s.len() && s.subrange(0, p.len() as int) == p
}

pub open spec fn ends_with(s: Seq<char>, p: Seq<char>) -> bool {
    p.len() <= s.len() && s.subrange(s.len() - p.len(), s.len() as int) == p
}

/// `p` occurs in `s` at position `i`.
pub open spec fn matches_at(s: Seq<char>, i: int, p: Seq<char>) -> bool {
    0 <= i && i + p.len() <= s.len() && s.subrange(i, i + p.len()) == p
}

pub open spec fn contains_seq(s: Seq<char>, p: Seq<char>) -> bool {
    exists|i: int| matches_at(s, i, p)
}

pub fn is_space_char(c: char) -> (r: bool)
    ensures
        r == is_space(c),
{
    c == ' ' || c == '\t' || c == '\n' || c == '\r'
}

/// Character-wise string equality.
pub fn str_eq(a: &str, b: &str) -> (r: bool)
    ensures
        r == (a@ == b@),
{
    let alen = a.unicode_len();
    let blen = b.unicode_len();
    if alen != blen {
        return false;
    }
    let mut i: usize = 0;
    while i < alen
        invariant
            alen == a@.len(),
            alen == b@.len(),
            i <= alen,
            forall|j: int| 0 <= j < i ==> a@[j] == b@[j],
        decreases alen - i,
    {
        if a.get_char(i) != b.get_char(i) {
            return false;
        }
        i += 1;
    }
    proof {
        assert(a@ =~= b@);
    }
    true
}

/// Does `p` occur in `s` at position `i`?
pub fn matches_at_str(s: &str, i: usize, p: &str) -> (r: bool)
    requires
        i + p@.len() <= s@.len(),
    ensures
        r == matches_at(s@, i as int, p@),
{
    let plen = p.unicode_len();
    let slen = s.unicode_len();
    let mut j: usize = 0;
    while j < plen
        invariant
            plen == p@.len(),
            slen == s@.len(),
            i + plen <= s@.len(),
            j <= plen,
            forall|k: int| 0 <= k < j ==> s@[i + k] == p@[k],
        decreases plen - j,
    {
        if s.get_char(i + j) != p.get_char(j) {
            assert(!matches_at(s@, i as int, p@)) by {
                assert(s@[i + j] != p@[j as int]);
            }
            return false;
        }
        j += 1;
    }
    proof {
        assert(s@.subrange(i as int, i + plen) =~= p@);
    }
    true
}

pub fn starts_with_str(s: &str, p: &str) -> (r: bool)
    ensures
        r == starts_with(s@, p@),
{
    let slen = s.unicode_len();
    let plen = p.unicode_len();
    if plen > slen {
        return false;
    }
    matches_at_str(s, 0, p)
}

pub fn ends_with_str(s: &str, p: &str) -> (r: bool)
    ensures
        r == ends_with(s@, p@),
{
    let slen = s.unicode_len();
    let plen = p.unicode_len();
    if plen > slen {
        return false;
    }
    matches_at_str(s, slen - plen, p)
}

pub fn contains_str(s: &str, p: &str) -> (r: bool)
    ensures
        r == contains_seq(s@, p@),
{
    let slen = s.unicode_len();
    let plen = p.unicode_len();
    if plen > slen {
        assert(forall|i: int| !matches_at(s@, i, p@));
        return false;
    }
    if plen == 0 {
        assert(matches_at(s@, 0, p@)) by {
            assert(s@.subrange(0, 0) =~= p@);
        }
        return true;
    }
    let mut i: usize = 0;
    while i <= slen - plen
        invariant
            slen == s@.len(),
            plen == p@.len(),
            0 < plen <= slen,
            i <= slen - plen + 1,
            forall|j: int| 0 <= j < i ==> !matches_at(s@, j, p@),
        decreases slen - i,
    {
        if matches_at_str(s, i, p) {
            return true;
        }
        i += 1;
    }
    assert(forall|j: int| !matches_at(s@, j, p@)) by {
        assert(forall|j: int| j > slen - plen ==> !matches_at(s@, j, p@));
    }
    false
}

/// `s` without leading whitespace.
pub open spec fn trim_front(s: Seq<char>) -> Seq<char>
    decreases s.len(),
{
    if s.len() > 0 && is_space(s[0]) {
        trim_front(s.skip(1))
    } else {
        s
    }
}

/// `s` without trailing whitespace.
pub open spec fn trim_back(s: Seq<char>) -> Seq<char>
    decreases s.len(),
{
    if s.len() > 0 && is_space(s[s.len() - 1]) {
        trim_back(s.take(s.len() - 1))
    } else {
        s
    }
}

/// `s` without leading and trailing whitespace.
pub open spec fn trimmed(s: Seq<char>) -> Seq<char> {
    trim_back(trim_front(s))
}

proof fn lemma_trim_front_skip(s: Seq<char>, i: int)
    requires
        0 <= i <= s.len(),
        forall|j: int| 0 <= j < i ==> is_space(#[trigger] s[j]),
    ensures
        trim_front(s) == trim_front(s.skip(i)),
    decreases i,
{
    if i > 0 {
        assert forall|j: int| 0 <= j < i - 1 implies is_space(#[trigger] s.skip(1)[j]) by {
            assert(s.skip(1)[j] == s[j + 1]);
        };
        lemma_trim_front_skip(s.skip(1), i - 1);
        assert(s.skip(1).skip(i - 1) =~= s.skip(i));
    } else {
        assert(s.skip(0) =~= s);
    }
}

proof fn lemma_trim_back_take(s: Seq<char>, i: int)
    requires
        0 <= i <= s.len(),
        forall|j: int| i <= j < s.len() ==> is_space(#[trigger] s[j]),
    ensures
        trim_back(s) == trim_back(s.take(i)),
    decreases s.len() - i,
{
    if i < s.len() {
        assert(is_space(s[s.len() - 1]));
        assert forall|j: int| i <= j < s.take(s.len() - 1).len() implies is_space(
            #[trigger] s.take(s.len() - 1)[j],
        ) by {
            assert(s.take(s.len() - 1)[j] == s[j]);
        };
        lemma_trim_back_take(s.take(s.len() - 1), i);
        assert(s.take(s.len() - 1).take(i) =~= s.take(i));
    } else {
        assert(s.take(i) =~= s);
    }
}

/// `s` with surrounding whitespace removed, as `trimmed` describes.
pub fn trim_str<'a>(s: &'a str) -> (r: &'a str)
    ensures
        r@ == trimmed(s@),
{
    let len = s.unicode_len();
    let mut a: usize = 0;
    while a < len && is_space_char(s.get_char(a))
        invariant
            len == s@.len(),
            a <= len,
            forall|j: int| 0 <= j < a ==> is_space(#[trigger] s@[j]),
        decreases len - a,
    {
        a += 1;
    }
    proof {
        lemma_trim_front_skip(s@, a as int);
    }
    if a == len {
        let r = s.substring_char(0, 0);
        proof {
            assert(s@.skip(len as int) =~= Seq::<char>::empty());
            assert(r@ =~= trimmed(s@));
        }
        return r;
    }
    // a is the first non-space position, so trim_front(s) == s[a..]
    proof {
        assert(s@.skip(a as int)[0] == s@[a as int]);
    }
    let mut b: usize = len;
    while b > a && is_space_char(s.get_char(b - 1))
        invariant
            len == s@.len(),
            a < len,
            !is_space(s@[a as int]),
            a < b <= len,
            forall|j: int| b <= j < len ==> is_space(#[trigger] s@[j]),
        decreases b,
    {
        b -= 1;
    }
    proof {
        let t = s@.skip(a as int);
        assert forall|j: int| b - a <= j < t.len() implies is_space(#[trigger] t[j]) by {
            assert(t[j] == s@[j + a]);
        };
        lemma_trim_back_take(t, b - a);
        assert(t.take(b - a) =~= s@.subrange(a as int, b as int));
        // b is past the last non-space position at or after a
        assert(b > a);
        assert(!is_space(s@[b - 1]));
        assert(s@.subrange(a as int, b as int)[b - a - 1] == s@[b - 1]);
    }
    let r = s.substring_char(a, b);
    r
}

/// Index of the first occurrence of `c` in `s`, if any.
pub fn find_char(s: &str, c: char) -> (r: Option<usize>)
    ensures
        match r {
            Some(i) => i < s@.len() && s@[i as int] == c && forall|j: int|
                0 <= j < i ==> s@[j] != c,
            None => forall|j: int| 0 <= j < s@.len() ==> s@[j] != c,
        },
{
    let len = s.unicode_len();
    let mut i: usize = 0;
    while i < len
        invariant
            len == s@.len(),
            i <= len,
            forall|j: int| 0 <= j < i ==> s@[j] != c,
        decreases len - i,
    {
        if s.get_char(i) == c {
            return Some(i);
        }
        i += 1;
    }
    None
}

/// Index of the first occurrence of `c` in `s`, or `s.len()` if there is
/// none.
pub open spec fn first_ix(s: Seq<char>, c: char) -> int
    decreases s.len(),
{
    if s.len() == 0 {
        0
    } else if s[0] == c {
        0
    } else {
        1 + first_ix(s.skip(1), c)
    }
}

pub proof fn lemma_first_ix_bounds(s: Seq<char>, c: char)
    ensures
        0 <= first_ix(s, c) <= s.len(),
        first_ix(s, c) < s.len() ==> s[first_ix(s, c)] == c,
        forall|j: int| 0 <= j < first_ix(s, c) ==> s[j] != c,
    decreases s.len(),
{
    if s.len() > 0 && s[0] != c {
        lemma_first_ix_bounds(s.skip(1), c);
        assert forall|j: int| 0 <= j < first_ix(s, c) implies s[j] != c by {
            if j > 0 {
                assert(s.skip(1)[j - 1] == s[j]);
            }
        };
    }
}

pub proof fn lemma_first_ix_is(s: Seq<char>, c: char, k: int)
    requires
        0 <= k <= s.len(),
        forall|j: int| 0 <= j < k ==> s[j] != c,
        k < s.len() ==> s[k] == c,
    ensures
        first_ix(s, c) == k,
    decreases k,
{
    if k > 0 {
        assert forall|j: int| 0 <= j < k - 1 implies s.skip(1)[j] != c by {
            assert(s.skip(1)[j] == s[j + 1]);
        };
        assert(k - 1 < s.skip(1).len() ==> s.skip(1)[k - 1] == c);
        lemma_first_ix_is(s.skip(1), c, k - 1);
    }
}

/// Index of the first occurrence of `c` in `s` at or after `from`, if any.
pub fn find_char_from(s: &str, from: usize, c: char) -> (r: Option<usize>)
    requires
        from <= s@.len(),
    ensures
        match r {
            Some(i) => from <= i < s@.len() && s@[i as int] == c && forall|j: int|
                from <= j < i ==> s@[j] != c,
            None => forall|j: int| from <= j < s@.len() ==> s@[j] != c,
        },
{
    let len = s.unicode_len();
    let mut i: usize = from;
    while i < len
        invariant
            len == s@.len(),
            from <= i <= len,
            forall|j: int| from <= j < i ==> s@[j] != c,
        decreases len - i,
    {
        if s.get_char(i) == c {
            return Some(i);
        }
        i += 1;
    }
    None
}

/// Index of the first occurrence of `p` in `s`, if any.
pub fn find_sub(s: &str, p: &str) -> (r: Option<usize>)
    ensures
        match r {
            Some(i) => matches_at(s@, i as int, p@) && forall|j: int|
                0 <= j < i ==> !matches_at(s@, j, p@),
            None => !contains_seq(s@, p@),
        },
{
    let slen = s.unicode_len();
    let plen = p.unicode_len();
    if plen > slen {
        assert(forall|i: int| !matches_at(s@, i, p@));
        return None;
    }
    if plen == 0 {
        assert(matches_at(s@, 0, p@)) by {
            assert(s@.subrange(0, 0) =~= p@);
        }
        return Some(0);
    }
    let mut i: usize = 0;
    while i <= slen - plen
        invariant
            slen == s@.len(),
            plen == p@.len(),
            0 < plen <= slen,
            i <= slen - plen + 1,
            forall|j: int| 0 <= j < i ==> !matches_at(s@, j, p@),
        decreases slen - i,
    {
        if matches_at_str(s, i, p) {
            return Some(i);
        }
        i += 1;
    }
    assert(forall|j: int| !matches_at(s@, j, p@)) by {
        assert(forall|j: int| j > slen - plen ==> !matches_at(s@, j, p@));
    }
    None
}

/// A line with its terminating carriage return, if any, removed.
pub open spec fn strip_cr(l: Seq<char>) -> Seq<char> {
    if l.len() > 0 && l[l.len() - 1] == '\r' {
        l.take(l.len() - 1)
    } else {
        l
    }
}

/// The lines of `s`: split at `'\n'`, a carriage return before the line
/// break removed, no final empty line when `s` ends with a line break.
pub open spec fn lines_spec(s: Seq<char>) -> Seq<Seq<char>>
    decreases s.len(),
    via lines_spec_decreases
{
    if s.len() == 0 {
        Seq::empty()
    } else {
        let i = first_ix(s, '\n');
        if i == s.len() {
            seq![s]
        } else {
            seq![strip_cr(s.take(i))] + lines_spec(s.skip(i + 1))
        }
    }
}

#[via_fn]
proof fn lines_spec_decreases(s: Seq<char>) {
    lemma_first_ix_bounds(s, '\n');
}

/// The lines of `s`, as `lines_spec` describes.
pub fn split_lines(s: &str) -> (r: Vec<String>)
    ensures
        r.deep_view() == lines_spec(s@),
{
    let len = s.unicode_len();
    let mut r: Vec<String> = Vec::new();
    let mut start: usize = 0;
    proof {
        assert(s@.skip(0) =~= s@);
        assert(r.deep_view() =~= Seq::<Seq<char>>::empty());
        assert(r.deep_view() + lines_spec(s@) =~= lines_spec(s@));
    }
    while start < len
        invariant
            len == s@.len(),
            start <= len,
            lines_spec(s@) == r.deep_view() + lines_spec(s@.skip(start as int)),
        decreases len - start,
    {
        let ghost t = s@.skip(start as int);
        let ghost r0 = r.deep_view();
        match find_char_from(s, start, '\n') {
            Some(nl) => {
                proof {
                    assert forall|j: int| 0 <= j < nl - start implies t[j] != '\n' by {
                        assert(t[j] == s@[j + start]);
                    };
                    assert(t[nl - start] == s@[nl as int]);
                    lemma_first_ix_is(t, '\n', nl - start);
                }
                let line_end = if nl > start && s.get_char(nl - 1) == '\r' {
                    nl - 1
                } else {
                    nl
                };
                let line = s.substring_char(start, line_end);
                r.push(String::from_str(line));
                proof {
                    assert(t.take(nl - start) =~= s@.subrange(start as int, nl as int));
                    assert(strip_cr(t.take(nl - start)) =~= line@);
                    assert(t.skip(nl - start + 1) =~= s@.skip(nl + 1));
                    assert(lines_spec(t) == seq![strip_cr(t.take(nl - start))] + lines_spec(
                        s@.skip(nl + 1),
                    ));
                    assert(r.deep_view() =~= r0 + seq![line@]);
                    assert(r0 + seq![strip_cr(t.take(nl - start))] + lines_spec(s@.skip(nl + 1))
                        =~= r0 + (seq![strip_cr(t.take(nl - start))] + lines_spec(
                        s@.skip(nl + 1),
                    )));
                }
                start = nl + 1;
            },
            None => {
                proof {
                    assert forall|j: int| 0 <= j < t.len() implies t[j] != '\n' by {
                        assert(t[j] == s@[j + start]);
                    };
                    lemma_first_ix_is(t, '\n', t.len() as int);
                }
                let line = s.substring_char(start, len);
                r.push(String::from_str(line));
                proof {
                    assert(t =~= s@.subrange(start as int, len as int));
                    assert(lines_spec(t) == seq![t]);
                    assert(r.deep_view() =~= r0 + seq![t]);
                    assert(s@.skip(len as int).len() == 0);
                    assert(r.deep_view() + lines_spec(s@.skip(len as int)) =~= r.deep_view());
                }
                start = len;
            },
        }
    }
    proof {
        assert(s@.skip(start as int).len() == 0);
        assert(lines_spec(s@.skip(start as int)) =~= Seq::<Seq<char>>::empty());
        assert(r.deep_view() + lines_spec(s@.skip(start as int)) =~= r.deep_view());
    }
    r
}

pub open spec fn is_digit(c: char) -> bool {
    '0' <= c && c <= '9'
}

pub open spec fn digit_val(c: char) -> int {
    c as int - '0' as int
}

/// The number the digit string `s` denotes.
pub open spec fn digits_val(s: Seq<char>) -> int
    decreases s.len(),
{
    if s.len() == 0 {
        0
    } else {
        digits_val(s.take(s.len() - 1)) * 10 + digit_val(s[s.len() - 1])
    }
}

pub open spec fn all_digits(s: Seq<char>) -> bool {
    s.len() > 0 && forall|i: int| 0 <= i < s.len() ==> is_digit(#[trigger] s[i])
}

proof fn lemma_digits_val_nonneg(s: Seq<char>)
    requires
        forall|i: int| 0 <= i < s.len() ==> is_digit(#[trigger] s[i]),
    ensures
        digits_val(s) >= 0,
    decreases s.len(),
{
    if s.len() > 0 {
        assert(forall|i: int|
            0 <= i < s.len() - 1 ==> is_digit(#[trigger] s.take(s.len() - 1)[i]));
        lemma_digits_val_nonneg(s.take(s.len() - 1));
    }
}

proof fn lemma_digits_val_take_le(s: Seq<char>, i: int)
    requires
        0 <= i <= s.len(),
        forall|j: int| 0 <= j < s.len() ==> is_digit(#[trigger] s[j]),
    ensures
        digits_val(s.take(i)) <= digits_val(s),
    decreases s.len() - i,
{
    if i < s.len() {
        lemma_digits_val_take_le(s, i + 1);
        let t = s.take(i + 1);
        assert(forall|j: int| 0 <= j < t.len() ==> is_digit(#[trigger] t[j]));
        assert(t.take(i) =~= s.take(i));
        assert(digits_val(t) == digits_val(s.take(i)) * 10 + digit_val(s[i]));
        lemma_digits_val_nonneg(s.take(i));
        assert(digits_val(s.take(i)) <= digits_val(s.take(i)) * 10 + digit_val(s[i])) by (nonlinear_arith)
            requires
                digits_val(s.take(i)) >= 0,
                0 <= digit_val(s[i]),
        ;
    } else {
        assert(s.take(i) =~= s);
    }
}

/// Parse a decimal number: `Some` exactly when `s` is one or more digits
/// denoting a value that fits in a `u64`.
pub fn parse_u64(s: &str) -> (r: Option<u64>)
    ensures
        match r {
            Some(v) => all_digits(s@) && v == digits_val(s@),
            None => !(all_digits(s@) && digits_val(s@) <= u64::MAX),
        },
{
    let len = s.unicode_len();
    if len == 0 {
        return None;
    }
    let mut acc: u64 = 0;
    let mut i: usize = 0;
    while i < len
        invariant
            len == s@.len(),
            0 < len,
            i <= len,
            forall|j: int| 0 <= j < i ==> is_digit(#[trigger] s@[j]),
            acc == digits_val(s@.take(i as int)),
        decreases len - i,
    {
        let c = s.get_char(i);
        if !('0' <= c && c <= '9') {
            return None;
        }
        let d = (c as u32 - 48) as u64;
        if acc > (u64::MAX - d) / 10 {
            proof {
                assert(digits_val(s@.take(i + 1)) == acc * 10 + d) by {
                    assert(s@.take(i + 1).take(i as int) =~= s@.take(i as int));
                };
                assert(acc * 10 + d > u64::MAX) by (nonlinear_arith)
                    requires
                        acc > (u64::MAX - d) / 10,
                        0 <= d <= 9,
                ;
                if all_digits(s@) {
                    lemma_digits_val_take_le(s@, i + 1);
                }
            }
            return None;
        }
        proof {
            assert(s@.take(i + 1).take(i as int) =~= s@.take(i as int));
            assert(acc * 10 + d <= u64::MAX) by (nonlinear_arith)
                requires
                    acc <= (u64::MAX - d) / 10,
                    0 <= d <= 9,
            ;
        }
        acc = acc * 10 + d;
        i += 1;
    }
    proof {
        assert(s@.take(len as int) =~= s@);
    }
    Some(acc)
}

/// `s` without leading occurrences of `c`.
pub open spec fn strip_front_char(s: Seq<char>, c: char) -> Seq<char>
    decreases s.len(),
{
    if s.len() > 0 && s[0] == c {
        strip_front_char(s.skip(1), c)
    } else {
        s
    }
}

/// `s` without trailing occurrences of `c`.
pub open spec fn strip_back_char(s: Seq<char>, c: char) -> Seq<char>
    decreases s.len(),
{
    if s.len() > 0 && s[s.len() - 1] == c {
        strip_back_char(s.take(s.len() - 1), c)
    } else {
        s
    }
}

/// `s` without leading and trailing occurrences of `c`.
pub open spec fn strip_char(s: Seq<char>, c: char) -> Seq<char> {
    strip_back_char(strip_front_char(s, c), c)
}

proof fn lemma_strip_front_char_skip(s: Seq<char>, c: char, i: int)
    requires
        0 <= i <= s.len(),
        forall|j: int| 0 <= j < i ==> #[trigger] s[j] == c,
    ensures
        strip_front_char(s, c) == strip_front_char(s.skip(i), c),
    decreases i,
{
    if i > 0 {
        assert forall|j: int| 0 <= j < i - 1 implies #[trigger] s.skip(1)[j] == c by {
            assert(s.skip(1)[j] == s[j + 1]);
        };
        lemma_strip_front_char_skip(s.skip(1), c, i - 1);
        assert(s.skip(1).skip(i - 1) =~= s.skip(i));
    } else {
        assert(s.skip(0) =~= s);
    }
}

proof fn lemma_strip_back_char_take(s: Seq<char>, c: char, i: int)
    requires
        0 <= i <= s.len(),
        forall|j: int| i <= j < s.len() ==> #[trigger] s[j] == c,
    ensures
        strip_back_char(s, c) == strip_back_char(s.take(i), c),
    decreases s.len() - i,
{
    if i < s.len() {
        assert forall|j: int| i <= j < s.take(s.len() - 1).len() implies #[trigger] s.take(
            s.len() - 1,
        )[j] == c by {
            assert(s.take(s.len() - 1)[j] == s[j]);
        };
        lemma_strip_back_char_take(s.take(s.len() - 1), c, i);
        assert(s.take(s.len() - 1).take(i) =~= s.take(i));
    } else {
        assert(s.take(i) =~= s);
    }
}

/// `s` with every leading and trailing occurrence of `c` removed, as
/// `strip_char` describes.
pub fn strip_char_ends<'a>(s: &'a str, c: char) -> (r: &'a str)
    ensures
        r@ == strip_char(s@, c),
{
    let len = s.unicode_len();
    let mut a: usize = 0;
    while a < len && s.get_char(a) == c
        invariant
            len == s@.len(),
            a <= len,
            forall|j: int| 0 <= j < a ==> #[trigger] s@[j] == c,
        decreases len - a,
    {
        a += 1;
    }
    proof {
        lemma_strip_front_char_skip(s@, c, a as int);
    }
    if a == len {
        let r = s.substring_char(0, 0);
        proof {
            assert(s@.skip(len as int) =~= Seq::<char>::empty());
            assert(r@ =~= strip_char(s@, c));
        }
        return r;
    }
    proof {
        assert(s@.skip(a as int)[0] == s@[a as int]);
    }
    let mut b: usize = len;
    while b > a && s.get_char(b - 1) == c
        invariant
            len == s@.len(),
            a < len,
            s@[a as int] != c,
            a < b <= len,
            forall|j: int| b <= j < len ==> #[trigger] s@[j] == c,
        decreases b,
    {
        b -= 1;
    }
    proof {
        let t = s@.skip(a as int);
        assert forall|j: int| b - a <= j < t.len() implies #[trigger] t[j] == c by {
            assert(t[j] == s@[j + a]);
        };
        lemma_strip_back_char_take(t, c, b - a);
        assert(t.take(b - a) =~= s@.subrange(a as int, b as int));
        assert(s@.subrange(a as int, b as int)[b - a - 1] == s@[b - 1]);
    }
    s.substring_char(a, b)
}

/// A character folded to lower case, for the ASCII range.
pub open spec fn lower_char(c: char) -> char {
    if 'A' <= c && c <= 'Z' {
        (((c as u8) + 32) as char)
    } else {
        c
    }
}

pub open spec fn lower_seq(s: Seq<char>) -> Seq<char> {
    s.map_values(|c: char| lower_char(c))
}

/// Relies on `String::push`: appends exactly the one character.
#[verifier::external_body]
fn push_char(s: &mut String, c: char)
    ensures
        final(s)@ == old(s)@.push(c),
{
    s.push(c)
}

/// `s` folded to lower case, ASCII range only, as `lower_seq` describes.
pub fn to_lower_ascii(s: &str) -> (r: String)
    ensures
        r@ == lower_seq(s@),
{
    let len = s.unicode_len();
    let mut r = String::new();
    let mut i: usize = 0;
    while i < len
        invariant
            len == s@.len(),
            i <= len,
            r@ == lower_seq(s@.take(i as int)),
        decreases len - i,
    {
        let c = s.get_char(i);
        let lc: char = if 'A' <= c && c <= 'Z' {
            ((c as u8) + 32) as char
        } else {
            c
        };
        push_char(&mut r, lc);
        proof {
            assert(lower_seq(s@.take(i + 1)) =~= lower_seq(s@.take(i as int)).push(
                lower_char(s@[i as int]),
            ));
        }
        i += 1;
    }
    proof {
        assert(s@.take(len as int) =~= s@);
    }
    r
}

/// Index of the first whitespace character in `s`, or `s.len()`.
pub open spec fn first_space_ix(s: Seq<char>) -> int
    decreases s.len(),
{
    if s.len() == 0 {
        0
    } else if is_space(s[0]) {
        0
    } else {
        1 + first_space_ix(s.skip(1))
    }
}

pub proof fn lemma_first_space_ix_is(s: Seq<char>, k: int)
    requires
        0 <= k <= s.len(),
        forall|j: int| 0 <= j < k ==> !is_space(#[trigger] s[j]),
        k < s.len() ==> is_space(s[k]),
    ensures
        first_space_ix(s) == k,
    decreases k,
{
    if k > 0 {
        assert forall|j: int| 0 <= j < k - 1 implies !is_space(#[trigger] s.skip(1)[j]) by {
            assert(s.skip(1)[j] == s[j + 1]);
        };
        assert(k - 1 < s.skip(1).len() ==> is_space(s.skip(1)[k - 1]));
        lemma_first_space_ix_is(s.skip(1), k - 1);
    }
}

proof fn lemma_first_space_ix_bounds(s: Seq<char>)
    ensures
        0 <= first_space_ix(s) <= s.len(),
    decreases s.len(),
{
    if s.len() > 0 && !is_space(s[0]) {
        lemma_first_space_ix_bounds(s.skip(1));
    }
}

/// The whitespace-separated tokens of `s`, in order.
pub open spec fn tokens_spec(s: Seq<char>) -> Seq<Seq<char>>
    decreases s.len(),
    via tokens_spec_decreases
{
    if s.len() == 0 {
        Seq::empty()
    } else if is_space(s[0]) {
        tokens_spec(s.skip(1))
    } else {
        let i = first_space_ix(s);
        seq![s.take(i)] + tokens_spec(s.skip(i))
    }
}

#[via_fn]
proof fn tokens_spec_decreases(s: Seq<char>) {
    lemma_first_space_ix_bounds(s);
    if s.len() > 0 && !is_space(s[0]) {
        lemma_first_space_ix_bounds(s.skip(1));
    }
}

/// The whitespace-separated tokens of `s`, as `tokens_spec` describes.
pub fn split_tokens(s: &str) -> (r: Vec<String>)
    ensures
        r.deep_view() == tokens_spec(s@),
{
    let len = s.unicode_len();
    let mut r: Vec<String> = Vec::new();
    let mut i: usize = 0;
    proof {
        assert(s@.skip(0) =~= s@);
        assert(r.deep_view() =~= Seq::<Seq<char>>::empty());
        assert(r.deep_view() + tokens_spec(s@) =~= tokens_spec(s@));
    }
    while i < len
        invariant
            len == s@.len(),
            i <= len,
            tokens_spec(s@) == r.deep_view() + tokens_spec(s@.skip(i as int)),
        decreases len - i,
    {
        let ghost t = s@.skip(i as int);
        if is_space_char(s.get_char(i)) {
            proof {
                assert(t[0] == s@[i as int]);
                assert(t.skip(1) =~= s@.skip(i + 1));
            }
            i += 1;
        } else {
            let ghost r0 = r.deep_view();
            // scan to the end of the token
            let mut j: usize = i + 1;
            while j < len && !is_space_char(s.get_char(j))
                invariant
                    len == s@.len(),
                    i < j <= len,
                    forall|k: int| i <= k < j ==> !is_space(#[trigger] s@[k]),
                decreases len - j,
            {
                j += 1;
            }
            let tok = s.substring_char(i, j);
            r.push(String::from_str(tok));
            proof {
                assert(t[0] == s@[i as int]);
                assert forall|k: int| 0 <= k < j - i implies !is_space(#[trigger] t[k]) by {
                    assert(t[k] == s@[k + i]);
                };
                assert(j < len ==> is_space(t[j - i]));
                lemma_first_space_ix_is(t, j - i);
                assert(t.take(j - i) =~= s@.subrange(i as int, j as int));
                assert(t.skip(j - i) =~= s@.skip(j as int));
                assert(tokens_spec(t) == seq![tok@] + tokens_spec(s@.skip(j as int)));
                assert(r.deep_view() =~= r0 + seq![tok@]);
                assert(r0 + seq![tok@] + tokens_spec(s@.skip(j as int)) =~= r0 + (seq![tok@]
                    + tokens_spec(s@.skip(j as int))));
            }
            i = j;
        }
    }
    proof {
        assert(s@.skip(len as int).len() == 0);
        assert(tokens_spec(s@.skip(len as int)) =~= Seq::<Seq<char>>::empty());
        assert(r.deep_view() + tokens_spec(s@.skip(len as int)) =~= r.deep_view());
    }
    r
}

/// Parse a decimal number that must fit in a `u32`.
pub fn parse_u32(s: &str) -> (r: Option<u32>)
    ensures
        match r {
            Some(v) => all_digits(s@) && v == digits_val(s@),
            None => !(all_digits(s@) && digits_val(s@) <= u32::MAX),
        },
{
    match parse_u64(s) {
        Some(v) => {
            if v <= 0xffff_ffff {
                Some(v as u32)
            } else {
                None
            }
        },
        None => {
            proof {
                if all_digits(s@) && digits_val(s@) <= u32::MAX {
                }
            }
            None
        },
    }
}

/// Parse a decimal number that must fit in a `u16`.
pub fn parse_u16(s: &str) -> (r: Option<u16>)
    ensures
        match r {
            Some(v) => all_digits(s@) && v == digits_val(s@),
            None => !(all_digits(s@) && digits_val(s@) <= u16::MAX),
        },
{
    match parse_u64(s) {
        Some(v) => {
            if v <= 0xffff {
                Some(v as u16)
            } else {
                None
            }
        },
        None => None,
    }
}

} // verus!
