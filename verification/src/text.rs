//! Character-level helpers shared by the text-processing stages.
use vstd::prelude::*;

verus! {

broadcast use vstd::string::group_string_axioms;

/// `String::push` appends one character: afterwards the string holds its old
/// characters followed by `ch`, as std documents.
pub assume_specification[ String::push ](s: &mut String, ch: char)
    ensures
        final(s)@ == old(s)@.push(ch),
;

/// The characters of a string, in order.
pub fn chars_of(s: &str) -> (out: Vec<char>)
    ensures
        out@ == s@,
{
    let mut out: Vec<char> = Vec::new();
    for c in it: s.chars()
        invariant
            out@ == it.seq().take(it.index() as int),
            it.seq() == s@,
    {
        out.push(c);
    }
    out
}

/// A string holding exactly the given characters.
pub fn string_of(chars: &[char]) -> (out: String)
    ensures
        out@ == chars@,
{
    let mut out = String::new();
    let mut i: usize = 0;
    while i < chars.len()
        invariant
            i <= chars.len(),
            out@ == chars@.take(i as int),
        decreases chars.len() - i,
    {
        out.push(chars[i]);
        assert(chars@.take(i + 1) == chars@.take(i as int).push(chars@[i as int]));
        i += 1;
    }
    assert(chars@.take(chars.len() as int) == chars@);
    out
}


/// The ASCII digit for `d` in `0..=9`.
pub open spec fn digit_char(d: int) -> char {
    (48 + d) as char
}

/// The decimal representation of `n`, without leading zeros.
pub open spec fn decimal(n: nat) -> Seq<char>
    decreases n,
{
    if n < 10 {
        seq![digit_char(n as int)]
    } else {
        decimal(n / 10).push(digit_char((n % 10) as int))
    }
}

/// Append the decimal representation of `n`.
pub fn push_decimal(s: &mut String, n: u32)
    ensures
        final(s)@ == old(s)@ + decimal(n as nat),
    decreases n,
{
    if n >= 10 {
        push_decimal(s, n / 10);
    }
    let d: u8 = (n % 10) as u8;
    let c = (48u8 + d) as char;
    assert(c == digit_char(d as int));
    s.push(c);
    if n >= 10 {
        assert(old(s)@ + decimal(n as nat) == old(s)@ + decimal((n / 10) as nat) + seq![c]);
    } else {
        assert(old(s)@ + decimal(n as nat) == old(s)@.push(c));
    }
}


/// Unicode `White_Space`, the property `char::is_whitespace` and `str::trim`
/// are defined by.
pub open spec fn is_whitespace(c: char) -> bool {
    ('\u{9}' <= c <= '\u{d}') || c == ' ' || c == '\u{85}' || c == '\u{a0}' || c == '\u{1680}' || ('\u{2000}' <= c
        <= '\u{200a}') || c == '\u{2028}' || c == '\u{2029}' || c == '\u{202f}' || c == '\u{205f}' || c == '\u{3000}'
}

pub fn char_is_whitespace(c: char) -> (ws: bool)
    ensures
        ws == is_whitespace(c),
{
    ('\u{9}' <= c && c <= '\u{d}') || c == ' ' || c == '\u{85}' || c == '\u{a0}' || c == '\u{1680}' || ('\u{2000}' <= c
        && c <= '\u{200a}') || c == '\u{2028}' || c == '\u{2029}' || c == '\u{202f}' || c == '\u{205f}' || c == '\u{3000}'
}

/// Unicode general category `Cc`, the property `char::is_control` is
/// defined by.
pub open spec fn is_control(c: char) -> bool {
    c <= '\u{1f}' || ('\u{7f}' <= c && c <= '\u{9f}')
}

pub fn char_is_control(c: char) -> (control: bool)
    ensures
        control == is_control(c),
{
    c <= '\u{1f}' || ('\u{7f}' <= c && c <= '\u{9f}')
}

/// `s` without trailing whitespace.
pub open spec fn trim_end(s: Seq<char>) -> Seq<char>
    decreases s.len(),
{
    if s.len() > 0 && is_whitespace(s.last()) {
        trim_end(s.drop_last())
    } else {
        s
    }
}

/// `s` without leading whitespace.
pub open spec fn trim_start(s: Seq<char>) -> Seq<char>
    decreases s.len(),
{
    if s.len() > 0 && is_whitespace(s[0]) {
        trim_start(s.drop_first())
    } else {
        s
    }
}

/// `s` without leading or trailing whitespace, as `str::trim` returns it.
pub open spec fn trim(s: Seq<char>) -> Seq<char> {
    trim_start(trim_end(s))
}

/// Trailing whitespace ends at `hi` when everything from `hi` on is
/// whitespace and the character before it is not.
pub proof fn lemma_trim_end_at(s: Seq<char>, hi: int)
    requires
        0 <= hi <= s.len(),
        forall|j: int| hi <= j < s.len() ==> is_whitespace(#[trigger] s[j]),
        hi == 0 || !is_whitespace(s[hi - 1]),
    ensures
        trim_end(s) == s.take(hi),
    decreases s.len(),
{
    if s.len() > hi {
        assert(s.drop_last().take(hi) == s.take(hi));
        lemma_trim_end_at(s.drop_last(), hi);
    } else {
        assert(s.take(hi) == s);
    }
}

/// Leading whitespace ends at `lo` when everything before `lo` is whitespace
/// and the character at it is not.
pub proof fn lemma_trim_start_at(s: Seq<char>, lo: int)
    requires
        0 <= lo <= s.len(),
        forall|j: int| 0 <= j < lo ==> is_whitespace(#[trigger] s[j]),
        lo == s.len() || !is_whitespace(s[lo]),
    ensures
        trim_start(s) == s.skip(lo),
    decreases s.len(),
{
    if lo > 0 {
        assert(s.drop_first().skip(lo - 1) == s.skip(lo));
        lemma_trim_start_at(s.drop_first(), lo - 1);
    } else {
        assert(s.skip(0) == s);
    }
}

/// The bounds of `s[lo..hi]` with surrounding whitespace removed.
pub fn trim_range(s: &[char], lo: usize, hi: usize) -> (bounds: (usize, usize))
    requires
        lo <= hi <= s@.len(),
    ensures
        lo <= bounds.0 <= bounds.1 <= hi,
        s@.subrange(bounds.0 as int, bounds.1 as int) == trim(s@.subrange(lo as int, hi as int)),
{
    let ghost r = s@.subrange(lo as int, hi as int);
    let mut end = hi;
    while end > lo && char_is_whitespace(s[end - 1])
        invariant
            lo <= end <= hi <= s.len(),
            forall|j: int| end <= j < hi ==> is_whitespace(#[trigger] s@[j]),
        decreases end,
    {
        end -= 1;
    }
    proof {
        assert forall|j: int| end - lo <= j < r.len() implies is_whitespace(#[trigger] r[j]) by {
            assert(r[j] == s@[lo + j]);
        }
        lemma_trim_end_at(r, end - lo);
    }
    let mut start: usize = lo;
    while start < end && char_is_whitespace(s[start])
        invariant
            lo <= start <= end <= hi <= s.len(),
            forall|j: int| lo <= j < start ==> is_whitespace(#[trigger] s@[j]),
        decreases end - start,
    {
        start += 1;
    }
    proof {
        let t = r.take(end - lo);
        assert forall|j: int| 0 <= j < start - lo implies is_whitespace(#[trigger] t[j]) by {
            assert(t[j] == s@[lo + j]);
        }
        if start < end {
            assert(t[start - lo] == s@[start as int]);
        }
        lemma_trim_start_at(t, start - lo);
        assert(t.skip(start - lo) == s@.subrange(start as int, end as int));
    }
    (start, end)
}

/// The bounds of `s` with surrounding whitespace removed.
pub fn trim_bounds(s: &[char]) -> (bounds: (usize, usize))
    ensures
        bounds.0 <= bounds.1 <= s@.len(),
        s@.subrange(bounds.0 as int, bounds.1 as int) == trim(s@),
{
    assert(s@.subrange(0, s@.len() as int) == s@);
    trim_range(s, 0, s.len())
}

/// The index of the first `c` in `s`, or its length when there is none.
pub open spec fn char_index(s: Seq<char>, c: char) -> nat
    decreases s.len(),
{
    if s.len() == 0 {
        0
    } else if s[0] == c {
        0
    } else {
        1 + char_index(s.drop_first(), c)
    }
}

/// The first position of `c` is `i` when no earlier character is `c` and the
/// one at `i`, if any, is.
pub proof fn lemma_char_index(s: Seq<char>, c: char, i: int)
    requires
        0 <= i <= s.len(),
        forall|j: int| 0 <= j < i ==> #[trigger] s[j] != c,
        i == s.len() || s[i] == c,
    ensures
        char_index(s, c) == i,
    decreases i,
{
    if i > 0 {
        lemma_char_index(s.drop_first(), c, i - 1);
    }
}

/// The position of the first `c` at or after `from`, or the length of `s`.
pub fn find_char(s: &[char], from: usize, c: char) -> (at: usize)
    requires
        from <= s@.len(),
    ensures
        from <= at <= s@.len(),
        at == from + char_index(s@.skip(from as int), c),
        forall|j: int| from <= j < at ==> #[trigger] s@[j] != c,
        at < s@.len() ==> s@[at as int] == c,
{
    let mut at = from;
    while at < s.len() && s[at] != c
        invariant
            from <= at <= s.len(),
            forall|j: int| from <= j < at ==> #[trigger] s@[j] != c,
        decreases s.len() - at,
    {
        at += 1;
    }
    proof {
        let t = s@.skip(from as int);
        assert forall|j: int| 0 <= j < at - from implies #[trigger] t[j] != c by {
            assert(t[j] == s@[from + j]);
        }
        lemma_char_index(t, c, at - from);
    }
    at
}

/// Whether `s[lo..hi]` is exactly `lit`.
pub fn range_equals(s: &[char], lo: usize, hi: usize, lit: &str) -> (eq: bool)
    requires
        lo <= hi <= s@.len(),
    ensures
        eq == (s@.subrange(lo as int, hi as int) == lit@),
{
    let l = chars_of(lit);
    if hi - lo != l.len() {
        return false;
    }
    let mut i: usize = 0;
    while i < l.len()
        invariant
            lo <= hi <= s@.len(),
            hi - lo == l@.len(),
            l@ == lit@,
            i <= l@.len(),
            forall|j: int| 0 <= j < i ==> s@[lo + j] == #[trigger] l@[j],
        decreases l.len() - i,
    {
        if s[lo + i] != l[i] {
            assert(s@.subrange(lo as int, hi as int)[i as int] != lit@[i as int]);
            return false;
        }
        i += 1;
    }
    assert(s@.subrange(lo as int, hi as int) =~= lit@);
    true
}

/// Whether `s[lo..hi]` begins with `lit`.
pub fn range_starts_with(s: &[char], lo: usize, hi: usize, lit: &str) -> (starts: bool)
    requires
        lo <= hi <= s@.len(),
    ensures
        starts == lit@.is_prefix_of(s@.subrange(lo as int, hi as int)),
{
    let l = chars_of(lit);
    if l.len() > hi - lo {
        return false;
    }
    let eq = range_equals(s, lo, lo + l.len(), lit);
    assert(s@.subrange(lo as int, hi as int).take(l@.len() as int) == s@.subrange(lo as int, lo + l@.len()));
    eq
}

/// A string holding `chars[lo..hi]`.
pub fn string_of_range(chars: &[char], lo: usize, hi: usize) -> (out: String)
    requires
        lo <= hi <= chars@.len(),
    ensures
        out@ == chars@.subrange(lo as int, hi as int),
{
    let mut out = String::new();
    let mut i: usize = lo;
    while i < hi
        invariant
            lo <= i <= hi <= chars@.len(),
            out@ == chars@.subrange(lo as int, i as int),
        decreases hi - i,
    {
        out.push(chars[i]);
        assert(chars@.subrange(lo as int, i + 1) == chars@.subrange(lo as int, i as int).push(chars@[i as int]));
        i += 1;
    }
    out
}

/// `s` with surrounding whitespace removed, as `str::trim` does it.
pub fn trimmed(s: &str) -> (out: String)
    ensures
        out@ == trim(s@),
{
    let chars = chars_of(s);
    let (lo, hi) = trim_bounds(chars.as_slice());
    string_of_range(chars.as_slice(), lo, hi)
}

/// The position of the first `c` in `s[from..to]`, or `to`.
pub fn find_char_before(s: &[char], from: usize, to: usize, c: char) -> (at: usize)
    requires
        from <= to <= s@.len(),
    ensures
        from <= at <= to,
        at == from + char_index(s@.subrange(from as int, to as int), c),
        forall|j: int| from <= j < at ==> #[trigger] s@[j] != c,
        at < to ==> s@[at as int] == c,
{
    let mut at = from;
    while at < to && s[at] != c
        invariant
            from <= at <= to <= s@.len(),
            forall|j: int| from <= j < at ==> #[trigger] s@[j] != c,
        decreases to - at,
    {
        at += 1;
    }
    proof {
        let t = s@.subrange(from as int, to as int);
        assert forall|j: int| 0 <= j < at - from implies #[trigger] t[j] != c by {
            assert(t[j] == s@[from + j]);
        }
        if at < to {
            assert(t[at - from] == s@[at as int]);
        }
        lemma_char_index(t, c, at - from);
    }
    at
}

/// Whether `pat` occurs in `s`.
pub open spec fn has_infix(s: Seq<char>, pat: Seq<char>) -> bool {
    exists|i: int| 0 <= i && i + pat.len() <= s.len() && #[trigger] s.subrange(i, i + pat.len()) == pat
}

/// Whether `pat` occurs in `s[..]`.
pub fn chars_contain(s: &[char], pat: &str) -> (found: bool)
    ensures
        found == has_infix(s@, pat@),
{
    let p = chars_of(pat);
    let m = p.len();
    if m > s.len() {
        return false;
    }
    let last = s.len() - m;
    let mut i: usize = 0;
    loop
        invariant
            m == pat@.len(),
            m <= s@.len(),
            last == s@.len() - m,
            last + m == s.len(),
            i <= last,
            forall|j: int| 0 <= j < i ==> #[trigger] s@.subrange(j, j + m) != pat@,
        ensures
            forall|j: int| 0 <= j <= last ==> #[trigger] s@.subrange(j, j + m) != pat@,
        decreases last - i,
    {
        if range_equals(s, i, i + m, pat) {
            return true;
        }
        if i == last {
            break;
        }
        i += 1;
    }
    assert forall|j: int| 0 <= j && j + pat@.len() <= s@.len() implies #[trigger] s@.subrange(j, j + pat@.len()) != pat@ by {
        assert(j <= last);
    }
    false
}

/// Whether `pat` occurs in `s`.
pub fn str_contains(s: &str, pat: &str) -> (found: bool)
    ensures
        found == has_infix(s@, pat@),
{
    let chars = chars_of(s);
    chars_contain(chars.as_slice(), pat)
}

/// Append the characters of `lit`.
pub fn append(s: &mut String, lit: &str)
    ensures
        final(s)@ == old(s)@ + lit@,
{
    let chars = chars_of(lit);
    let mut i: usize = 0;
    while i < chars.len()
        invariant
            i <= chars@.len(),
            chars@ == lit@,
            s@ == old(s)@ + lit@.take(i as int),
        decreases chars.len() - i,
    {
        s.push(chars[i]);
        assert(lit@.take(i + 1) == lit@.take(i as int).push(chars@[i as int]));
        i += 1;
    }
    assert(lit@.take(lit@.len() as int) == lit@);
}

/// Append the decimal representation of `n`.
pub fn push_decimal_u64(s: &mut String, n: u64)
    ensures
        final(s)@ == old(s)@ + decimal(n as nat),
    decreases n,
{
    if n >= 10 {
        push_decimal_u64(s, n / 10);
    }
    let d: u8 = (n % 10) as u8;
    let c = (48u8 + d) as char;
    assert(c == digit_char(d as int));
    s.push(c);
    if n >= 10 {
        assert(old(s)@ + decimal(n as nat) == old(s)@ + decimal((n / 10) as nat) + seq![c]);
    } else {
        assert(old(s)@ + decimal(n as nat) == old(s)@.push(c));
    }
}

/// Whether `a` comes strictly before `b` in lexicographic order of code
/// points, as `str` orders them.
pub open spec fn seq_lt(a: Seq<char>, b: Seq<char>) -> bool
    decreases a.len(),
{
    if a.len() == 0 {
        b.len() > 0
    } else if b.len() == 0 {
        false
    } else if a[0] != b[0] {
        a[0] < b[0]
    } else {
        seq_lt(a.drop_first(), b.drop_first())
    }
}

/// Whether `a` comes strictly before `b` in lexicographic order.
pub fn chars_lt(a: &[char], b: &[char]) -> (lt: bool)
    ensures
        lt == seq_lt(a@, b@),
{
    let mut i: usize = 0;
    assert(a@.skip(0) == a@ && b@.skip(0) == b@);
    while i < a.len() && i < b.len() && a[i] == b[i]
        invariant
            i <= a@.len(),
            i <= b@.len(),
            seq_lt(a@.skip(i as int), b@.skip(i as int)) == seq_lt(a@, b@),
        decreases a.len() - i,
    {
        assert(a@.skip(i as int).drop_first() == a@.skip(i + 1));
        assert(b@.skip(i as int).drop_first() == b@.skip(i + 1));
        i += 1;
    }
    if i == a.len() {
        i < b.len()
    } else if i == b.len() {
        false
    } else {
        a[i] < b[i]
    }
}

/// The decimal representation of `n`, with a leading minus when negative.
pub open spec fn signed_decimal(n: int) -> Seq<char> {
    if n < 0 {
        seq!['-'] + decimal((-n) as nat)
    } else {
        decimal(n as nat)
    }
}

/// Append the decimal representation of `n`.
pub fn push_decimal_i64(s: &mut String, n: i64)
    ensures
        final(s)@ == old(s)@ + signed_decimal(n as int),
{
    if n < 0 {
        s.push('-');
        let magnitude: u64 = if n == i64::MIN { 9223372036854775808u64 } else { (-n) as u64 };
        let ghost mid = s@;
        push_decimal_u64(s, magnitude);
        assert(s@ == old(s)@ + (seq!['-'] + decimal((-n) as nat)));
    } else {
        push_decimal_u64(s, n as u64);
    }
}

} // verus!
