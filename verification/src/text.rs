//! Character-level helpers shared by every parser of the crate.
use vstd::prelude::*;

verus! {

broadcast use vstd::string::group_string_axioms;

/// Copies the characters of a string slice into a vector.
pub fn chars_of(s: &str) -> (v: Vec<char>)
    ensures
        v@ == s@,
{
    let mut v: Vec<char> = Vec::new();
    for c in it: s.chars()
        invariant
            it.seq() == s@,
            v@ == it.seq().take(it.index()),
    {
        v.push(c);
    }
    v
}

/// Appends one character to a string (`String::push`).
#[verifier::external_body]
fn push_char(s: &mut String, c: char)
    ensures
        final(s)@ == old(s)@.push(c),
{
    s.push(c);
}

/// Builds a string from a sequence of characters.
pub fn string_of(v: &[char]) -> (s: String)
    ensures
        s@ == v@,
{
    let mut s = String::new();
    let mut i: usize = 0;
    while i < v.len()
        invariant
            i <= v.len(),
            s@ == v@.take(i as int),
        decreases v.len() - i,
    {
        push_char(&mut s, v[i]);
        i += 1;
        assert(v@.take(i as int) == v@.take(i - 1).push(v@[i - 1]));
    }
    assert(v@.take(v.len() as int) == v@);
    s
}


/// Unicode `White_Space`, the set of characters that `char::is_whitespace`
/// accepts.
pub open spec fn is_ws(c: char) -> bool {
    let u = c as u32;
    ||| 0x09 <= u <= 0x0D
    ||| u == 0x20
    ||| u == 0x85
    ||| u == 0xA0
    ||| u == 0x1680
    ||| 0x2000 <= u <= 0x200A
    ||| u == 0x2028
    ||| u == 0x2029
    ||| u == 0x202F
    ||| u == 0x205F
    ||| u == 0x3000
}

pub fn is_whitespace(c: char) -> (b: bool)
    ensures
        b == is_ws(c),
{
    let u = c as u32;
    (0x09 <= u && u <= 0x0D) || u == 0x20 || u == 0x85 || u == 0xA0 || u == 0x1680 || (0x2000
        <= u && u <= 0x200A) || u == 0x2028 || u == 0x2029 || u == 0x202F || u == 0x205F || u
        == 0x3000
}

/// Index of the first non-whitespace character at or after `i`.
pub open spec fn skip_ws(s: Seq<char>, i: int) -> int
    decreases s.len() - i,
{
    if 0 <= i < s.len() && is_ws(s[i]) {
        skip_ws(s, i + 1)
    } else {
        i
    }
}

/// Index just after the last non-whitespace character before `j`.
pub open spec fn back_ws(s: Seq<char>, j: int) -> int
    decreases j,
{
    if 0 < j <= s.len() && is_ws(s[j - 1]) {
        back_ws(s, j - 1)
    } else {
        j
    }
}

/// `str::trim`: the text without leading and trailing white space.
pub open spec fn trim(s: Seq<char>) -> Seq<char> {
    let a = skip_ws(s, 0);
    let b = back_ws(s, s.len() as int);
    if b <= a {
        Seq::empty()
    } else {
        s.subrange(a, b)
    }
}

pub proof fn lemma_skip_ws_bounds(s: Seq<char>, i: int)
    requires
        0 <= i <= s.len(),
    ensures
        i <= skip_ws(s, i) <= s.len(),
        skip_ws(s, i) < s.len() ==> !is_ws(s[skip_ws(s, i)]),
        forall|k: int| i <= k < skip_ws(s, i) ==> is_ws(#[trigger] s[k]),
    decreases s.len() - i,
{
    if i < s.len() && is_ws(s[i]) {
        lemma_skip_ws_bounds(s, i + 1);
    }
}

pub proof fn lemma_back_ws_bounds(s: Seq<char>, j: int)
    requires
        0 <= j <= s.len(),
    ensures
        0 <= back_ws(s, j) <= j,
        back_ws(s, j) > 0 ==> !is_ws(s[back_ws(s, j) - 1]),
        forall|k: int| back_ws(s, j) <= k < j ==> is_ws(#[trigger] s[k]),
    decreases j,
{
    if j > 0 && is_ws(s[j - 1]) {
        lemma_back_ws_bounds(s, j - 1);
    }
}

/// Removes leading and trailing white space.
pub fn trim_chars(v: &[char]) -> (r: Vec<char>)
    ensures
        r@ == trim(v@),
{
    let mut a: usize = 0;
    while a < v.len() && is_whitespace(v[a])
        invariant
            a <= v.len(),
            skip_ws(v@, a as int) == skip_ws(v@, 0),
        decreases v.len() - a,
    {
        a += 1;
    }
    let mut b: usize = v.len();
    while b > 0 && is_whitespace(v[b - 1])
        invariant
            b <= v.len(),
            back_ws(v@, b as int) == back_ws(v@, v@.len() as int),
        decreases b,
    {
        b -= 1;
    }
    let mut r: Vec<char> = Vec::new();
    if a < b {
        let mut i = a;
        while i < b
            invariant
                a <= i <= b <= v.len(),
                r@ == v@.subrange(a as int, i as int),
            decreases b - i,
        {
            r.push(v[i]);
            i += 1;
        }
    }
    r
}


/// The character views of a sequence of character vectors.
pub open spec fn views(v: Seq<Vec<char>>) -> Seq<Seq<char>> {
    v.map_values(|x: Vec<char>| x@)
}

/// Copies `v[a..b]`.
pub fn slice_chars(v: &[char], a: usize, b: usize) -> (r: Vec<char>)
    requires
        a <= b <= v.len(),
    ensures
        r@ == v@.subrange(a as int, b as int),
{
    let mut r: Vec<char> = Vec::new();
    let mut i = a;
    while i < b
        invariant
            a <= i <= b <= v.len(),
            r@ == v@.subrange(a as int, i as int),
        decreases b - i,
    {
        r.push(v[i]);
        i += 1;
    }
    r
}

/// Index of the first `'\n'` at or after `i`, or the length.
pub open spec fn find_nl(s: Seq<char>, i: int) -> int
    decreases s.len() - i,
{
    if 0 <= i < s.len() && s[i] != '\n' {
        find_nl(s, i + 1)
    } else {
        i
    }
}

pub proof fn lemma_find_nl(s: Seq<char>, i: int)
    requires
        0 <= i <= s.len(),
    ensures
        i <= find_nl(s, i) <= s.len(),
        find_nl(s, i) < s.len() ==> s[find_nl(s, i)] == '\n',
        forall|k: int| i <= k < find_nl(s, i) ==> #[trigger] s[k] != '\n',
    decreases s.len() - i,
{
    if i < s.len() && s[i] != '\n' {
        lemma_find_nl(s, i + 1);
    }
}

/// One line `s[i..j]`; a `'\r'` before the `'\n'` that ends it is dropped.
pub open spec fn line_text(s: Seq<char>, i: int, j: int) -> Seq<char> {
    let raw = s.subrange(i, j);
    if j < s.len() && raw.len() > 0 && raw.last() == '\r' {
        raw.drop_last()
    } else {
        raw
    }
}

/// `str::lines` from position `i`: lines end at `'\n'` (an `"\r\n"` ending
/// loses both characters) and a final empty line is not produced.
pub open spec fn lines_from(s: Seq<char>, i: int) -> Seq<Seq<char>>
    decreases s.len() - i,
{
    let j = find_nl(s, i);
    if i < 0 || i >= s.len() || j < i {
        Seq::empty()
    } else if j >= s.len() {
        seq![line_text(s, i, j)]
    } else {
        seq![line_text(s, i, j)] + lines_from(s, j + 1)
    }
}

/// `str::lines`.
pub open spec fn lines(s: Seq<char>) -> Seq<Seq<char>> {
    lines_from(s, 0)
}

/// Splits a text into its lines, as `str::lines` does.
pub fn split_lines(v: &[char]) -> (r: Vec<Vec<char>>)
    ensures
        views(r@) == lines(v@),
{
    let mut r: Vec<Vec<char>> = Vec::new();
    let mut i: usize = 0;
    while i < v.len()
        invariant
            i <= v.len(),
            views(r@) + lines_from(v@, i as int) == lines(v@),
        decreases v.len() - i,
    {
        let mut j = i;
        while j < v.len() && v[j] != '\n'
            invariant
                i <= j <= v.len(),
                find_nl(v@, j as int) == find_nl(v@, i as int),
            decreases v.len() - j,
        {
            j += 1;
        }
        proof {
            lemma_find_nl(v@, i as int);
        }
        let mut end = j;
        if j < v.len() && end > i && v[end - 1] == '\r' {
            end -= 1;
        }
        let line = slice_chars(v, i, end);
        assert(line@ == line_text(v@, i as int, j as int));
        let ghost old_r = r@;
        r.push(line);
        assert(views(r@) == views(old_r).push(line@));
        assert(lines_from(v@, i as int) == seq![line@] + lines_from(v@, j + 1));
        assert(views(r@) + lines_from(v@, j + 1) == views(old_r) + lines_from(v@, i as int));
        if j == v.len() {
            i = j;
        } else {
            i = j + 1;
        }
    }
    assert(views(r@) + lines_from(v@, i as int) == views(r@));
    r
}


pub open spec fn has_prefix(s: Seq<char>, p: Seq<char>) -> bool {
    p.len() <= s.len() && s.subrange(0, p.len() as int) == p
}

/// `str::starts_with` for a literal prefix.
pub fn starts_with(v: &[char], p: &[char]) -> (b: bool)
    ensures
        b == has_prefix(v@, p@),
{
    if p.len() > v.len() {
        return false;
    }
    let mut i: usize = 0;
    while i < p.len()
        invariant
            i <= p.len() <= v.len(),
            forall|k: int| 0 <= k < i ==> v@[k] == p@[k],
        decreases p.len() - i,
    {
        if v[i] != p[i] {
            assert(v@.subrange(0, p.len() as int)[i as int] != p@[i as int]);
            return false;
        }
        i += 1;
    }
    assert(v@.subrange(0, p.len() as int) == p@);
    true
}

/// Equality of two character sequences.
pub fn chars_eq(a: &[char], b: &[char]) -> (r: bool)
    ensures
        r == (a@ == b@),
{
    if a.len() != b.len() {
        return false;
    }
    let r = starts_with(a, b);
    proof {
        if r {
            assert(a@.subrange(0, a@.len() as int) == a@);
        } else {
            assert(a@.subrange(0, a@.len() as int) == a@);
        }
    }
    r
}

/// Whether `c` occurs in `v`.
pub fn contains_char(v: &[char], c: char) -> (r: bool)
    ensures
        r == v@.contains(c),
{
    let mut i: usize = 0;
    while i < v.len()
        invariant
            i <= v.len(),
            forall|k: int| 0 <= k < i ==> v@[k] != c,
        decreases v.len() - i,
    {
        if v[i] == c {
            assert(v@[i as int] == c);
            return true;
        }
        i += 1;
    }
    false
}

/// Index of the first white-space character at or after `i`.
pub open spec fn skip_non_ws(s: Seq<char>, i: int) -> int
    decreases s.len() - i,
{
    if 0 <= i < s.len() && !is_ws(s[i]) {
        skip_non_ws(s, i + 1)
    } else {
        i
    }
}

pub proof fn lemma_skip_non_ws_bounds(s: Seq<char>, i: int)
    requires
        0 <= i <= s.len(),
    ensures
        i <= skip_non_ws(s, i) <= s.len(),
        skip_non_ws(s, i) < s.len() ==> is_ws(s[skip_non_ws(s, i)]),
        forall|k: int| i <= k < skip_non_ws(s, i) ==> !is_ws(#[trigger] s[k]),
    decreases s.len() - i,
{
    if i < s.len() && !is_ws(s[i]) {
        lemma_skip_non_ws_bounds(s, i + 1);
    }
}

/// `str::split_whitespace` from position `i`.
pub open spec fn tokens_from(s: Seq<char>, i: int) -> Seq<Seq<char>>
    decreases s.len() - i,
{
    let a = skip_ws(s, i);
    let b = skip_non_ws(s, a);
    if i < 0 || a >= s.len() || a < i || b <= a || b > s.len() {
        Seq::empty()
    } else {
        seq![s.subrange(a, b)] + tokens_from(s, b)
    }
}

/// `str::split_whitespace`: the maximal runs of non-white-space characters.
pub open spec fn tokens(s: Seq<char>) -> Seq<Seq<char>> {
    tokens_from(s, 0)
}

pub fn split_whitespace(v: &[char]) -> (r: Vec<Vec<char>>)
    ensures
        views(r@) == tokens(v@),
{
    let mut r: Vec<Vec<char>> = Vec::new();
    let mut i: usize = 0;
    while i < v.len()
        invariant
            i <= v.len(),
            views(r@) + tokens_from(v@, i as int) == tokens(v@),
        decreases v.len() - i,
    {
        let mut a = i;
        while a < v.len() && is_whitespace(v[a])
            invariant
                i <= a <= v.len(),
                skip_ws(v@, a as int) == skip_ws(v@, i as int),
            decreases v.len() - a,
        {
            a += 1;
        }
        if a == v.len() {
            assert(tokens_from(v@, i as int) == Seq::<Seq<char>>::empty());
            assert(views(r@) + tokens_from(v@, a as int) == tokens(v@));
            i = a;
        } else {
            let mut b = a;
            while b < v.len() && !is_whitespace(v[b])
                invariant
                    a <= b <= v.len(),
                    skip_non_ws(v@, b as int) == skip_non_ws(v@, a as int),
                decreases v.len() - b,
            {
                b += 1;
            }
            proof {
                lemma_skip_ws_bounds(v@, i as int);
            }
            let token = slice_chars(v, a, b);
            let ghost old_r = r@;
            r.push(token);
            assert(views(r@) == views(old_r).push(token@));
            assert(tokens_from(v@, i as int) == seq![token@] + tokens_from(v@, b as int));
            assert(views(r@) + tokens_from(v@, b as int) == views(old_r) + tokens_from(
                v@,
                i as int,
            ));
            i = b;
        }
    }
    assert(views(r@) + tokens_from(v@, i as int) == views(r@));
    r
}


pub open spec fn is_digit(c: char) -> bool {
    '0' <= c <= '9'
}

pub open spec fn all_digits(s: Seq<char>) -> bool {
    forall|k: int| 0 <= k < s.len() ==> is_digit(#[trigger] s[k])
}

/// The number written by a run of decimal digits.
pub open spec fn digits_value(s: Seq<char>) -> int
    decreases s.len(),
{
    if s.len() == 0 {
        0
    } else {
        digits_value(s.drop_last()) * 10 + (s.last() as int - '0' as int)
    }
}

/// A non-empty run of decimal digits whose value is at most `max`.
pub open spec fn digits_within(d: Seq<char>, max: int) -> bool {
    d.len() > 0 && all_digits(d) && digits_value(d) <= max
}

/// `u32::from_str`: an optional `'+'` and a non-empty run of decimal digits
/// whose value fits.
pub open spec fn spec_parse_u32(s: Seq<char>) -> Option<u32> {
    let d = if s.len() > 0 && s[0] == '+' {
        s.drop_first()
    } else {
        s
    };
    if digits_within(d, u32::MAX as int) {
        Some(digits_value(d) as u32)
    } else {
        None
    }
}

/// `i32::from_str`: an optional `'+'` or `'-'` and a non-empty run of
/// decimal digits whose signed value fits.
pub open spec fn spec_parse_i32(s: Seq<char>) -> Option<i32> {
    if s.len() > 0 && s[0] == '-' {
        let d = s.drop_first();
        if digits_within(d, 0x8000_0000) {
            Some((-digits_value(d)) as i32)
        } else {
            None
        }
    } else {
        let d = if s.len() > 0 && s[0] == '+' {
            s.drop_first()
        } else {
            s
        };
        if digits_within(d, i32::MAX as int) {
            Some(digits_value(d) as i32)
        } else {
            None
        }
    }
}

pub proof fn lemma_digits_value_nonneg(s: Seq<char>)
    requires
        all_digits(s),
    ensures
        digits_value(s) >= 0,
    decreases s.len(),
{
    if s.len() > 0 {
        assert(all_digits(s.drop_last())) by {
            assert forall|k: int| 0 <= k < s.drop_last().len() implies is_digit(
                #[trigger] s.drop_last()[k],
            ) by {
                assert(s.drop_last()[k] == s[k]);
            }
        }
        lemma_digits_value_nonneg(s.drop_last());
        assert(is_digit(s[s.len() - 1]));
    }
}

/// A longer run of digits has at least the value of its prefix.
pub proof fn lemma_digits_value_prefix(s: Seq<char>, k: int)
    requires
        all_digits(s),
        0 <= k <= s.len(),
    ensures
        digits_value(s.subrange(0, k)) <= digits_value(s),
    decreases s.len() - k,
{
    if k < s.len() {
        let t = s.subrange(0, k + 1);
        assert(t.drop_last() == s.subrange(0, k));
        assert(all_digits(s.subrange(0, k))) by {
            assert forall|j: int| 0 <= j < k implies is_digit(#[trigger] s.subrange(0, k)[j]) by {
                assert(s.subrange(0, k)[j] == s[j]);
            }
        }
        lemma_digits_value_nonneg(s.subrange(0, k));
        assert(is_digit(s[k]));
        assert(t.last() == s[k]);
        lemma_digits_value_prefix(s, k + 1);
    } else {
        assert(s.subrange(0, k) == s);
    }
}

/// Reads `v[start..]` as a non-empty run of decimal digits of value at most
/// `limit`.
fn digits_at_most(v: &[char], start: usize, limit: u64) -> (r: Option<u64>)
    requires
        start <= v.len(),
        limit <= 0x1_0000_0000,
    ensures
        match r {
            Some(x) => digits_within(v@.subrange(start as int, v.len() as int), limit as int)
                && x == digits_value(v@.subrange(start as int, v.len() as int)),
            None => !digits_within(v@.subrange(start as int, v.len() as int), limit as int),
        },
{
    let ghost d = v@.subrange(start as int, v.len() as int);
    if start == v.len() {
        return None;
    }
    let mut val: u64 = 0;
    let mut i = start;
    while i < v.len()
        invariant
            start <= i <= v.len(),
            d == v@.subrange(start as int, v.len() as int),
            limit <= 0x1_0000_0000,
            all_digits(v@.subrange(start as int, i as int)),
            val == digits_value(v@.subrange(start as int, i as int)),
            val <= limit,
        decreases v.len() - i,
    {
        let c = v[i];
        if !('0' <= c && c <= '9') {
            assert(d[i - start] == c);
            return None;
        }
        let ghost prev = v@.subrange(start as int, i as int);
        let ghost next = v@.subrange(start as int, i + 1);
        assert(next.drop_last() == prev);
        assert(next.last() == c);
        let digit = (c as u32 - '0' as u32) as u64;
        let nv = val * 10 + digit;
        assert(all_digits(next)) by {
            assert forall|k: int| 0 <= k < next.len() implies is_digit(#[trigger] next[k]) by {
                if k < prev.len() {
                    assert(next[k] == prev[k]);
                }
            }
        }
        if nv > limit {
            proof {
                if all_digits(d) {
                    assert(d.subrange(0, i + 1 - start) == next);
                    lemma_digits_value_prefix(d, i + 1 - start);
                }
            }
            return None;
        }
        val = nv;
        i += 1;
    }
    assert(v@.subrange(start as int, i as int) == d);
    Some(val)
}

/// Parses a `u32` as `str::parse::<u32>` does.
pub fn parse_u32(v: &[char]) -> (r: Option<u32>)
    ensures
        r == spec_parse_u32(v@),
{
    let start: usize = if v.len() > 0 && v[0] == '+' {
        1
    } else {
        0
    };
    assert(v@.subrange(start as int, v.len() as int) == (if v@.len() > 0 && v@[0] == '+' {
        v@.drop_first()
    } else {
        v@
    }));
    match digits_at_most(v, start, 0xFFFF_FFFF) {
        Some(x) => Some(x as u32),
        None => None,
    }
}

/// Parses an `i32` as `str::parse::<i32>` does.
pub fn parse_i32(v: &[char]) -> (r: Option<i32>)
    ensures
        r == spec_parse_i32(v@),
{
    if v.len() > 0 && v[0] == '-' {
        assert(v@.subrange(1, v.len() as int) == v@.drop_first());
        match digits_at_most(v, 1, 0x8000_0000) {
            Some(x) => {
                let n: i64 = 0 - (x as i64);
                Some(n as i32)
            },
            None => None,
        }
    } else {
        let start: usize = if v.len() > 0 && v[0] == '+' {
            1
        } else {
            0
        };
        assert(v@.subrange(start as int, v.len() as int) == (if v@.len() > 0 && v@[0] == '+' {
            v@.drop_first()
        } else {
            v@
        }));
        match digits_at_most(v, start, 0x7FFF_FFFF) {
            Some(x) => Some(x as i32),
            None => None,
        }
    }
}

pub open spec fn is_hex(c: char) -> bool {
    ||| '0' <= c <= '9'
    ||| 'a' <= c <= 'f'
    ||| 'A' <= c <= 'F'
}

pub fn is_hex_digit(c: char) -> (b: bool)
    ensures
        b == is_hex(c),
{
    ('0' <= c && c <= '9') || ('a' <= c && c <= 'f') || ('A' <= c && c <= 'F')
}

/// `char::to_ascii_uppercase`.
pub open spec fn ascii_upper(c: char) -> char {
    if 'a' <= c <= 'z' {
        ((c as u32) - 32) as char
    } else {
        c
    }
}

/// `char::to_ascii_lowercase`.
pub open spec fn ascii_lower(c: char) -> char {
    if 'A' <= c <= 'Z' {
        ((c as u32) + 32) as char
    } else {
        c
    }
}

pub fn to_ascii_upper(c: char) -> (r: char)
    ensures
        r == ascii_upper(c),
{
    if 'a' <= c && c <= 'z' {
        ((c as u8) - 32) as char
    } else {
        c
    }
}

pub fn to_ascii_lower(c: char) -> (r: char)
    ensures
        r == ascii_lower(c),
{
    if 'A' <= c && c <= 'Z' {
        ((c as u8) + 32) as char
    } else {
        c
    }
}


/// Index of the first `c` at or after `i`, or the length.
pub open spec fn find_char(s: Seq<char>, c: char, i: int) -> int
    decreases s.len() - i,
{
    if 0 <= i < s.len() && s[i] != c {
        find_char(s, c, i + 1)
    } else {
        i
    }
}

pub proof fn lemma_find_char(s: Seq<char>, c: char, i: int)
    requires
        0 <= i <= s.len(),
    ensures
        i <= find_char(s, c, i) <= s.len(),
        find_char(s, c, i) < s.len() ==> s[find_char(s, c, i)] == c,
        forall|k: int| i <= k < find_char(s, c, i) ==> #[trigger] s[k] != c,
    decreases s.len() - i,
{
    if i < s.len() && s[i] != c {
        lemma_find_char(s, c, i + 1);
    }
}

/// Position of the first `c` in `v`, or its length.
pub fn position_of(v: &[char], c: char) -> (r: usize)
    ensures
        r == find_char(v@, c, 0),
        r <= v.len(),
{
    let mut i: usize = 0;
    while i < v.len() && v[i] != c
        invariant
            i <= v.len(),
            find_char(v@, c, i as int) == find_char(v@, c, 0),
        decreases v.len() - i,
    {
        i += 1;
    }
    i
}

/// `s` without the prefix `p` when it has it, else `s` itself
/// (`strip_prefix(p).unwrap_or(s)`).
pub open spec fn strip_lit(s: Seq<char>, p: Seq<char>) -> Seq<char> {
    if has_prefix(s, p) {
        s.skip(p.len() as int)
    } else {
        s
    }
}

/// The characters of `v` from position `n` on.
pub fn skip_chars(v: &[char], n: usize) -> (r: Vec<char>)
    requires
        n <= v.len(),
    ensures
        r@ == v@.skip(n as int),
{
    let r = slice_chars(v, n, v.len());
    assert(r@ == v@.skip(n as int));
    r
}

/// `strip_prefix(p).unwrap_or(v)`.
pub fn strip_or_keep(v: &[char], p: &[char]) -> (r: Vec<char>)
    ensures
        r@ == strip_lit(v@, p@),
{
    if starts_with(v, p) {
        skip_chars(v, p.len())
    } else {
        slice_chars(v, 0, v.len())
    }
}

/// The first white-space separated token, or nothing.
pub open spec fn first_token(s: Seq<char>) -> Seq<char> {
    if tokens(s).len() > 0 {
        tokens(s)[0]
    } else {
        Seq::empty()
    }
}

pub fn first_token_of(v: &[char]) -> (r: Vec<char>)
    ensures
        r@ == first_token(v@),
{
    let toks = split_whitespace(v);
    if toks.len() > 0 {
        assert(views(toks@)[0] == toks@[0]@);
        slice_chars(&toks[0], 0, toks[0].len())
    } else {
        Vec::new()
    }
}


/// Lexicographic order of character sequences by code point, the order of
/// `String`'s `Ord`.
pub open spec fn lex_le(a: Seq<char>, b: Seq<char>) -> bool
    decreases a.len(),
{
    if a.len() == 0 {
        true
    } else if b.len() == 0 {
        false
    } else if a[0] != b[0] {
        a[0] < b[0]
    } else {
        lex_le(a.drop_first(), b.drop_first())
    }
}

pub proof fn lemma_lex_le_total(a: Seq<char>, b: Seq<char>)
    ensures
        lex_le(a, b) || lex_le(b, a),
    decreases a.len(),
{
    if a.len() > 0 && b.len() > 0 && a[0] == b[0] {
        lemma_lex_le_total(a.drop_first(), b.drop_first());
    }
}

pub proof fn lemma_lex_le_trans(a: Seq<char>, b: Seq<char>, c: Seq<char>)
    requires
        lex_le(a, b),
        lex_le(b, c),
    ensures
        lex_le(a, c),
    decreases a.len(),
{
    if a.len() > 0 && b.len() > 0 && c.len() > 0 && a[0] == b[0] && b[0] == c[0] {
        lemma_lex_le_trans(a.drop_first(), b.drop_first(), c.drop_first());
    }
}

/// Whether `a` sorts before or equal to `b`.
pub fn lex_le_chars(a: &[char], b: &[char]) -> (r: bool)
    ensures
        r == lex_le(a@, b@),
{
    let mut i: usize = 0;
    assert(a@.skip(0) == a@);
    assert(b@.skip(0) == b@);
    while i < a.len() && i < b.len() && a[i] == b[i]
        invariant
            i <= a.len(),
            i <= b.len(),
            lex_le(a@.skip(i as int), b@.skip(i as int)) == lex_le(a@, b@),
        decreases a.len() - i,
    {
        assert(a@.skip(i as int).drop_first() == a@.skip(i + 1));
        assert(b@.skip(i as int).drop_first() == b@.skip(i + 1));
        i += 1;
    }
    if i == a.len() {
        true
    } else if i == b.len() {
        false
    } else {
        assert(a@.skip(i as int)[0] == a@[i as int]);
        assert(b@.skip(i as int)[0] == b@[i as int]);
        a[i] < b[i]
    }
}


/// What `str::to_lowercase` gives for a text: its Unicode lower-case mapping.
pub uninterp spec fn unicode_lowercase(s: Seq<char>) -> Seq<char>;

/// Lower-cases a text with `str::to_lowercase`.
#[verifier::external_body]
pub(crate) fn to_lowercase(v: &[char]) -> (r: Vec<char>)
    ensures
        r@ == unicode_lowercase(v@),
{
    let s: String = v.iter().collect();
    s.to_lowercase().chars().collect()
}

/// Upper-cases the ASCII letters of a text.
pub fn ascii_upper_all(v: &[char]) -> (r: Vec<char>)
    ensures
        r@ == v@.map_values(|c: char| ascii_upper(c)),
{
    let mut r: Vec<char> = Vec::new();
    let mut i: usize = 0;
    while i < v.len()
        invariant
            i <= v.len(),
            r@ == v@.take(i as int).map_values(|c: char| ascii_upper(c)),
        decreases v.len() - i,
    {
        r.push(to_ascii_upper(v[i]));
        assert(v@.take(i + 1).map_values(|c: char| ascii_upper(c)) == v@.take(i as int).map_values(
            |c: char| ascii_upper(c),
        ).push(ascii_upper(v@[i as int])));
        i += 1;
    }
    assert(v@.take(v.len() as int) == v@);
    r
}


/// What `String::from_utf8_lossy` gives for some bytes: their UTF-8
/// decoding, with U+FFFD in place of each invalid sequence.
pub uninterp spec fn utf8_lossy(b: Seq<u8>) -> Seq<char>;

/// Bytes below 0x80: ASCII, which is valid UTF-8.
pub open spec fn is_ascii_bytes(b: Seq<u8>) -> bool {
    forall|k: int| 0 <= k < b.len() ==> #[trigger] b[k] < 0x80
}

/// ASCII bytes as the characters they encode.
pub open spec fn ascii_chars(b: Seq<u8>) -> Seq<char> {
    b.map_values(|x: u8| x as char)
}

/// Decodes bytes with `String::from_utf8_lossy`; valid UTF-8, such as
/// ASCII, is returned as it is.
#[verifier::external_body]
pub(crate) fn decode_lossy(b: &[u8]) -> (r: Vec<char>)
    ensures
        r@ == utf8_lossy(b@),
        is_ascii_bytes(b@) ==> r@ == ascii_chars(b@),
{
    String::from_utf8_lossy(b).chars().collect()
}

/// Texts joined with a separator between them.
pub open spec fn join(parts: Seq<Seq<char>>, sep: Seq<char>) -> Seq<char>
    decreases parts.len(),
{
    if parts.len() == 0 {
        Seq::empty()
    } else if parts.len() == 1 {
        parts[0]
    } else {
        join(parts.drop_last(), sep) + sep + parts.last()
    }
}

/// Joins texts with a separator.
pub fn join_chars(parts: &Vec<Vec<char>>, sep: &[char]) -> (r: Vec<char>)
    ensures
        r@ == join(views(parts@), sep@),
{
    let mut r: Vec<char> = Vec::new();
    let mut i: usize = 0;
    while i < parts.len()
        invariant
            i <= parts.len(),
            r@ == join(views(parts@).take(i as int), sep@),
        decreases parts.len() - i,
    {
        let ghost before = r@;
        if i > 0 {
            let mut k: usize = 0;
            while k < sep.len()
                invariant
                    k <= sep.len(),
                    r@ == before + sep@.take(k as int),
                decreases sep.len() - k,
            {
                r.push(sep[k]);
                k += 1;
            }
            assert(sep@.take(sep.len() as int) == sep@);
        }
        let ghost mid = r@;
        let mut k: usize = 0;
        while k < parts[i].len()
            invariant
                i < parts.len(),
                k <= parts@[i as int].len(),
                r@ == mid + parts@[i as int]@.take(k as int),
            decreases parts@[i as int].len() - k,
        {
            r.push(parts[i][k]);
            k += 1;
        }
        assert(parts@[i as int]@.take(parts@[i as int]@.len() as int) == parts@[i as int]@);
        assert(views(parts@).take(i + 1).drop_last() == views(parts@).take(i as int));
        assert(views(parts@).take(i + 1).last() == parts@[i as int]@);
        if i == 0 {
            assert(before == Seq::<char>::empty());
            assert(r@ == parts@[0]@);
        }
        i += 1;
    }
    assert(views(parts@).take(parts.len() as int) == views(parts@));
    r
}

/// The decimal digits of a number.
pub open spec fn decimal(n: nat) -> Seq<char>
    decreases n,
{
    if n < 10 {
        seq![((n + 48) as u32) as char]
    } else {
        decimal(n / 10).push(((n % 10 + 48) as u32) as char)
    }
}

pub fn digit_char(d: u8) -> (c: char)
    requires
        d < 10,
    ensures
        c == ((d + 48) as u32) as char,
{
    (d + 48) as char
}

/// Appends the decimal digits of `n`.
pub fn push_decimal_u64(out: &mut Vec<char>, n: u64)
    ensures
        final(out)@ == old(out)@ + decimal(n as nat),
    decreases n,
{
    if n >= 10 {
        push_decimal_u64(out, n / 10);
    }
    let ghost mid = out@;
    out.push(digit_char((n % 10) as u8));
    proof {
        if n >= 10 {
            assert(decimal(n as nat) == decimal((n / 10) as nat).push(
                ((n % 10 + 48) as u32) as char,
            ));
        } else {
            assert(mid == old(out)@);
        }
    }
}

/// A signed number as `i32`'s `Display` writes it.
pub open spec fn int_text(n: int) -> Seq<char> {
    if n < 0 {
        seq!['-'] + decimal((-n) as nat)
    } else {
        decimal(n as nat)
    }
}

pub fn i32_text(n: i32) -> (r: Vec<char>)
    ensures
        r@ == int_text(n as int),
{
    let mut r: Vec<char> = Vec::new();
    if n < 0 {
        r.push('-');
        let m: i64 = 0 - (n as i64);
        push_decimal_u64(&mut r, m as u64);
    } else {
        push_decimal_u64(&mut r, n as u64);
    }
    r
}

} // verus!
