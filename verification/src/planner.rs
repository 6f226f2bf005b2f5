//! The deterministic goal compiler: the useful units of a source become an
//! ordered sequence of small actions, with no model involved.
use vstd::prelude::*;
use vstd::string::StrSliceExecFns;
use crate::cadence::{Cadence, CadenceView};
use crate::generate::{GeneratedProgram, GeneratedProgramView};
use crate::pipeline::{lowercase_of, to_lowercase};
use crate::text::{
    append, char_index, chars_contain, chars_of, find_char_before, has_infix, is_whitespace, char_is_whitespace,
    range_equals, range_starts_with, string_of_range, trim, trim_range, trim_start,
};
use crate::types::{opt_view, GeneratedTask, GeneratedTaskView, Intensity, ProgramKind, Warning};

verus! {

broadcast use vstd::string::group_string_axioms;

/// `s` with runs of whitespace collapsed to one space and none at either
/// end: its words joined by single spaces.
pub open spec fn collapse(s: Seq<char>) -> Seq<char>
    decreases s.len(),
{
    if s.len() == 0 {
        s
    } else {
        let prev = collapse(s.drop_last());
        let c = s.last();
        if is_whitespace(c) {
            prev
        } else if prev.len() == 0 {
            seq![c]
        } else if is_whitespace(s[s.len() - 2]) {
            prev + seq![' ', c]
        } else {
            prev.push(c)
        }
    }
}

/// The words of `value` joined by single spaces.
pub fn compact(value: &str) -> (out: String)
    ensures
        out@ == collapse(value@),
{
    let chars = chars_of(value);
    let mut out = String::new();
    let mut i: usize = 0;
    while i < chars.len()
        invariant
            i <= chars@.len(),
            chars@ == value@,
            out@ == collapse(value@.take(i as int)),
        decreases chars.len() - i,
    {
        let c = chars[i];
        let ghost prev = out@;
        assert(value@.take(i + 1).drop_last() == value@.take(i as int));
        assert(value@.take(i + 1).last() == c);
        if !char_is_whitespace(c) {
            if out.as_str().is_empty() {
                out.push(c);
                assert(out@ == seq![c]);
            } else if char_is_whitespace(chars[i - 1]) {
                assert(value@.take(i + 1)[i - 1] == chars@[i - 1]);
                out.push(' ');
                out.push(c);
                assert(out@ == prev + seq![' ', c]);
            } else {
                assert(value@.take(i + 1)[i - 1] == chars@[i - 1]);
                out.push(c);
            }
        }
        i += 1;
    }
    assert(value@.take(value@.len() as int) == value@);
    out
}

/// How many ASCII digits `s` starts with.
pub open spec fn leading_digits(s: Seq<char>) -> nat
    decreases s.len(),
{
    if s.len() == 0 || !('0' <= s[0] <= '9') {
        0
    } else {
        1 + leading_digits(s.drop_first())
    }
}

proof fn lemma_leading_digits(s: Seq<char>, n: int)
    requires
        0 <= n <= s.len(),
        forall|j: int| 0 <= j < n ==> '0' <= #[trigger] s[j] <= '9',
        n == s.len() || !('0' <= s[n] <= '9'),
    ensures
        leading_digits(s) == n,
    decreases n,
{
    if n > 0 {
        lemma_leading_digits(s.drop_first(), n - 1);
    }
}

/// Whether, after leading whitespace, `value` starts with digits followed by
/// `.` or `)`.
pub open spec fn spec_is_numbered(value: Seq<char>) -> bool {
    let t = trim_start(value);
    let d = leading_digits(t);
    d > 0 && d < t.len() && (t[d as int] == '.' || t[d as int] == ')')
}

/// `value` without leading whitespace, and without a leading list number and
/// the whitespace after it.
pub open spec fn spec_strip_number(value: Seq<char>) -> Seq<char> {
    let t = trim_start(value);
    if spec_is_numbered(value) {
        trim_start(t.skip(leading_digits(t) as int + 1))
    } else {
        t
    }
}

/// The start of `s[lo..hi]` without leading whitespace.
fn trim_start_from(s: &[char], lo: usize, hi: usize) -> (start: usize)
    requires
        lo <= hi <= s@.len(),
    ensures
        lo <= start <= hi,
        s@.subrange(start as int, hi as int) == trim_start(s@.subrange(lo as int, hi as int)),
{
    let mut start = lo;
    while start < hi && char_is_whitespace(s[start])
        invariant
            lo <= start <= hi <= s@.len(),
            forall|j: int| lo <= j < start ==> is_whitespace(#[trigger] s@[j]),
        decreases hi - start,
    {
        start += 1;
    }
    proof {
        let r = s@.subrange(lo as int, hi as int);
        assert forall|j: int| 0 <= j < start - lo implies is_whitespace(#[trigger] r[j]) by {
            assert(r[j] == s@[lo + j]);
        }
        if start < hi {
            assert(r[start - lo] == s@[start as int]);
        }
        crate::text::lemma_trim_start_at(r, start - lo);
        assert(r.skip(start - lo) == s@.subrange(start as int, hi as int));
    }
    start
}

/// The number of ASCII digits at the start of `s[lo..hi]`.
fn digits_from(s: &[char], lo: usize, hi: usize) -> (n: usize)
    requires
        lo <= hi <= s@.len(),
    ensures
        n == leading_digits(s@.subrange(lo as int, hi as int)),
        lo + n <= hi,
{
    let mut k = lo;
    while k < hi && '0' <= s[k] && s[k] <= '9'
        invariant
            lo <= k <= hi <= s@.len(),
            forall|j: int| lo <= j < k ==> '0' <= #[trigger] s@[j] <= '9',
        decreases hi - k,
    {
        k += 1;
    }
    proof {
        let r = s@.subrange(lo as int, hi as int);
        assert forall|j: int| 0 <= j < k - lo implies '0' <= #[trigger] r[j] <= '9' by {
            assert(r[j] == s@[lo + j]);
        }
        if k < hi {
            assert(r[k - lo] == s@[k as int]);
        }
        lemma_leading_digits(r, k - lo);
    }
    k - lo
}

/// Where `s[lo..hi]` with its list number stripped starts, and whether it
/// had one.
fn strip_number_range(s: &[char], lo: usize, hi: usize) -> (r: (usize, bool))
    requires
        lo <= hi <= s@.len(),
    ensures
        lo <= r.0 <= hi,
        r.1 == spec_is_numbered(s@.subrange(lo as int, hi as int)),
        s@.subrange(r.0 as int, hi as int) == spec_strip_number(s@.subrange(lo as int, hi as int)),
{
    let t = trim_start_from(s, lo, hi);
    let d = digits_from(s, t, hi);
    let ghost tv = s@.subrange(t as int, hi as int);
    if d > 0 && t + d < hi && (s[t + d] == '.' || s[t + d] == ')') {
        assert(tv[d as int] == s@[t + d]);
        let start = trim_start_from(s, t + d + 1, hi);
        assert(tv.skip(d + 1) == s@.subrange(t + d + 1, hi as int));
        (start, true)
    } else {
        if t + d < hi {
            assert(tv[d as int] == s@[t + d]);
        }
        (t, false)
    }
}

pub fn is_numbered(value: &str) -> (numbered: bool)
    ensures
        numbered == spec_is_numbered(value@),
{
    let chars = chars_of(value);
    assert(chars@.subrange(0, chars@.len() as int) == chars@);
    let (_, numbered) = strip_number_range(chars.as_slice(), 0, chars.len());
    numbered
}

pub fn strip_number(value: &str) -> (stripped: &str)
    ensures
        stripped@ == spec_strip_number(value@),
{
    let chars = chars_of(value);
    assert(chars@.subrange(0, chars@.len() as int) == chars@);
    let (start, _) = strip_number_range(chars.as_slice(), 0, chars.len());
    value.substring_char(start, chars.len())
}

pub open spec fn spec_is_schedule_label(value: Seq<char>) -> bool {
    let lower = lowercase_of(value);
    lower == "day"@ || lower == "week"@ || lower == "module"@ || lower == "chapter"@ || lower == "lesson"@
}

/// Whether a would-be topic is only a schedule word, such as "Week".
pub fn is_schedule_label(value: &str) -> (label: bool)
    ensures
        label == spec_is_schedule_label(value@),
{
    let lower = to_lowercase(value);
    let chars = chars_of(lower.as_str());
    let s = chars.as_slice();
    assert(chars@.subrange(0, chars@.len() as int) == chars@);
    range_equals(s, 0, s.len(), "day") || range_equals(s, 0, s.len(), "week") || range_equals(s, 0, s.len(), "module")
        || range_equals(s, 0, s.len(), "chapter") || range_equals(s, 0, s.len(), "lesson")
}

pub open spec fn spec_category(topic: Seq<char>) -> Seq<char> {
    let lower = lowercase_of(topic);
    if has_infix(lower, "build"@) || has_infix(lower, "practical"@) {
        "build"@
    } else if has_infix(lower, "review"@) || has_infix(lower, "check"@) {
        "review"@
    } else {
        "core"@
    }
}

/// The category a topic's tasks are filed under.
pub fn category_for(topic: &str) -> (category: String)
    ensures
        category@ == spec_category(topic@),
{
    let lower = to_lowercase(topic);
    let chars = chars_of(lower.as_str());
    let s = chars.as_slice();
    if chars_contain(s, "build") || chars_contain(s, "practical") {
        "build".to_owned()
    } else if chars_contain(s, "review") || chars_contain(s, "check") {
        "review".to_owned()
    } else {
        "core".to_owned()
    }
}

pub open spec fn spec_scale_minutes(minutes: u16, intensity: Intensity) -> u16 {
    let m = minutes as int;
    let scaled = match intensity {
        Intensity::Light => (if m * 3 > u16::MAX { u16::MAX as int } else { m * 3 }) / 4,
        Intensity::Standard => m,
        Intensity::Heavy => (if m * 5 > u16::MAX { u16::MAX as int } else { m * 5 }) / 4,
    };
    (if scaled < 5 { 5 } else if scaled > 480 { 480 } else { scaled }) as u16
}

/// An action's minutes at an intensity: three quarters when light, five
/// quarters when heavy, and always five to 480.
pub fn scale_minutes(minutes: u16, intensity: Intensity) -> (scaled: u16)
    ensures
        scaled == spec_scale_minutes(minutes, intensity),
{
    let m = minutes as u32;
    let scaled: u32 = match intensity {
        Intensity::Light => (if m * 3 > 65535 { 65535 } else { m * 3 }) / 4,
        Intensity::Standard => m,
        Intensity::Heavy => (if m * 5 > 65535 { 65535 } else { m * 5 }) / 4,
    };
    (if scaled < 5 { 5 } else if scaled > 480 { 480 } else { scaled }) as u16
}

pub open spec fn spec_difficulty(index: int, total: int) -> u8 {
    if index + 1 == total {
        3
    } else if index > total / 2 {
        2
    } else {
        1
    }
}

/// The last topic is the hardest, the second half harder than the first.
pub fn difficulty_for(index: usize, total: usize) -> (difficulty: u8)
    requires
        index < usize::MAX,
    ensures
        difficulty == spec_difficulty(index as int, total as int),
{
    if index + 1 == total {
        3
    } else if index > total / 2 {
        2
    } else {
        1
    }
}

/// The first line of `s`: up to the first newline, without the carriage
/// return of a `\r\n` ending.
pub open spec fn first_line(s: Seq<char>) -> Seq<char> {
    let i = char_index(s, '\n') as int;
    let l = s.take(i);
    if i < s.len() && l.len() > 0 && l.last() == '\r' {
        l.drop_last()
    } else {
        l
    }
}

/// What follows the first line.
pub open spec fn rest_lines(s: Seq<char>) -> Seq<char> {
    let i = char_index(s, '\n') as int;
    if i < s.len() {
        s.skip(i + 1)
    } else {
        Seq::<char>::empty()
    }
}

/// Dropping the first line of a non-empty text leaves a shorter text.
pub proof fn lemma_rest_shorter(s: Seq<char>)
    requires
        s.len() > 0,
    ensures
        rest_lines(s).len() < s.len(),
{
    crate::source::lemma_char_index_bound(s, '\n');
}

/// The first line with anything but whitespace on it, as it stands.
pub open spec fn first_nonblank_line(s: Seq<char>) -> Option<Seq<char>>
    decreases s.len(),
{
    if s.len() == 0 {
        None
    } else {
        proof {
            lemma_rest_shorter(s);
        }
        if trim(first_line(s)).len() > 0 {
            Some(first_line(s))
        } else {
            first_nonblank_line(rest_lines(s))
        }
    }
}

/// `s` without the leading list marks and spaces a heading may carry.
pub open spec fn strip_marks(s: Seq<char>) -> Seq<char>
    decreases s.len(),
{
    if s.len() > 0 && (s[0] == '-' || s[0] == '*' || s[0] == '\u{2022}' || s[0] == ' ') {
        strip_marks(s.drop_first())
    } else {
        s
    }
}

/// Whether a trimmed line reads as a heading: a day, week, module or
/// chapter label, a list mark, or a list number.
pub open spec fn is_heading(t: Seq<char>) -> bool {
    let lower = lowercase_of(t);
    ||| "day "@.is_prefix_of(lower)
    ||| "week "@.is_prefix_of(lower)
    ||| "module "@.is_prefix_of(lower)
    ||| "chapter "@.is_prefix_of(lower)
    ||| "-"@.is_prefix_of(t)
    ||| "*"@.is_prefix_of(t)
    ||| "\u{2022}"@.is_prefix_of(t)
    ||| spec_is_numbered(t)
}

/// The topic a heading line names: what follows its first colon, without
/// list marks or number, words collapsed; nothing for a line that is not a
/// heading, names nothing, or names only a schedule word.
pub open spec fn topic_of_line(line: Seq<char>) -> Option<Seq<char>> {
    let t = trim(line);
    if t.len() == 0 || !is_heading(t) {
        None
    } else {
        let colon = char_index(t, ':') as int;
        let after = if colon < t.len() { t.skip(colon + 1) } else { t };
        let topic = trim(spec_strip_number(strip_marks(trim(after))));
        if topic.len() == 0 {
            None
        } else if spec_is_schedule_label(collapse(topic)) {
            None
        } else {
            Some(collapse(topic))
        }
    }
}

/// The topics of the heading lines of `s`, in order.
pub open spec fn topics_of(s: Seq<char>) -> Seq<Seq<char>>
    decreases s.len(),
{
    if s.len() == 0 {
        Seq::<Seq<char>>::empty()
    } else {
        proof {
            lemma_rest_shorter(s);
        }
        let here = match topic_of_line(first_line(s)) {
            Some(c) => seq![c],
            None => Seq::<Seq<char>>::empty(),
        };
        here + topics_of(rest_lines(s))
    }
}

pub open spec fn string_views(v: Seq<String>) -> Seq<Seq<char>> {
    v.map_values(|x: String| x@)
}

/// Where `s[lo..hi]` starts once leading list marks and spaces are gone.
fn strip_marks_from(s: &[char], lo: usize, hi: usize) -> (start: usize)
    requires
        lo <= hi <= s@.len(),
    ensures
        lo <= start <= hi,
        s@.subrange(start as int, hi as int) == strip_marks(s@.subrange(lo as int, hi as int)),
{
    let mut x = lo;
    while x < hi && (s[x] == '-' || s[x] == '*' || s[x] == '\u{2022}' || s[x] == ' ')
        invariant
            lo <= x <= hi <= s@.len(),
            strip_marks(s@.subrange(lo as int, hi as int)) == strip_marks(s@.subrange(x as int, hi as int)),
        decreases hi - x,
    {
        assert(s@.subrange(x as int, hi as int).drop_first() == s@.subrange(x + 1, hi as int));
        x += 1;
    }
    x
}

/// The topic of the line `s[lo..hi]`.
fn line_topic(s: &[char], lo: usize, hi: usize) -> (topic: Option<String>)
    requires
        lo <= hi <= s@.len(),
    ensures
        match topic {
            Some(t) => topic_of_line(s@.subrange(lo as int, hi as int)) == Some(t@),
            None => topic_of_line(s@.subrange(lo as int, hi as int)) is None,
        },
{
    let ghost line = s@.subrange(lo as int, hi as int);
    let (a, b) = trim_range(s, lo, hi);
    if a == b {
        return None;
    }
    let t = string_of_range(s, a, b);
    let lower = to_lowercase(t.as_str());
    let lc = chars_of(lower.as_str());
    let l = lc.as_slice();
    assert(lc@.subrange(0, lc@.len() as int) == lc@);
    let (_, numbered) = strip_number_range(s, a, b);
    let heading = range_starts_with(l, 0, l.len(), "day ") || range_starts_with(l, 0, l.len(), "week ")
        || range_starts_with(l, 0, l.len(), "module ") || range_starts_with(l, 0, l.len(), "chapter ")
        || range_starts_with(s, a, b, "-") || range_starts_with(s, a, b, "*") || range_starts_with(s, a, b, "\u{2022}")
        || numbered;
    if !heading {
        return None;
    }
    let colon = find_char_before(s, a, b, ':');
    let ghost tv = s@.subrange(a as int, b as int);
    let after_lo = if colon < b { colon + 1 } else { a };
    assert(colon < b ==> tv.skip(colon - a + 1) == s@.subrange(after_lo as int, b as int));
    let (x, y) = trim_range(s, after_lo, b);
    let x2 = strip_marks_from(s, x, y);
    let (z, _) = strip_number_range(s, x2, y);
    let (u, v) = trim_range(s, z, y);
    if u == v {
        return None;
    }
    let raw = string_of_range(s, u, v);
    let c = compact(raw.as_str());
    if is_schedule_label(c.as_str()) {
        return None;
    }
    Some(c)
}

/// The topics the heading lines of a source name, in order.
pub fn extract_topics(text: &str) -> (topics: Vec<String>)
    ensures
        string_views(topics@) == topics_of(text@),
{
    let chars = chars_of(text);
    let s = chars.as_slice();
    let len = chars.len();
    let mut topics: Vec<String> = Vec::new();
    let mut p: usize = 0;
    assert(text@.skip(0) == text@);
    assert(string_views(topics@) + topics_of(text@) == topics_of(text@));
    while p < len
        invariant
            p <= len == chars@.len(),
            chars@ == text@,
            s@ == chars@,
            string_views(topics@) + topics_of(text@.skip(p as int)) == topics_of(text@),
        decreases len - p,
    {
        let q = crate::text::find_char(s, p, '\n');
        let ghost rest = text@.skip(p as int);
        let hi = if q < len && q > p && chars[q - 1] == '\r' { q - 1 } else { q };
        assert(first_line(rest) == chars@.subrange(p as int, hi as int)) by {
            assert(rest.take(q - p) == chars@.subrange(p as int, q as int));
        }
        let ghost before = string_views(topics@);
        match line_topic(s, p, hi) {
            Some(t) => {
                topics.push(t);
                assert(string_views(topics@) == before.push(t@));
            },
            None => {},
        }
        if q < len {
            assert(rest_lines(rest) == text@.skip(q + 1));
            p = q + 1;
        } else {
            assert(rest_lines(rest) == text@.skip(len as int));
            p = len;
        }
        proof {
            let here = match topic_of_line(first_line(rest)) {
                Some(c) => seq![c],
                None => Seq::<Seq<char>>::empty(),
            };
            assert(topics_of(rest) == here + topics_of(rest_lines(rest)));
            assert(string_views(topics@) == before + here);
        }
    }
    assert(text@.skip(len as int) == Seq::<char>::empty());
    assert(string_views(topics@) + Seq::<Seq<char>>::empty() == string_views(topics@));
    topics
}

/// The first line with anything but whitespace on it, as it stands.
fn nonblank_line(text: &str) -> (line: Option<String>)
    ensures
        match line {
            Some(l) => first_nonblank_line(text@) == Some(l@),
            None => first_nonblank_line(text@) is None,
        },
{
    let chars = chars_of(text);
    let s = chars.as_slice();
    let len = chars.len();
    let mut p: usize = 0;
    assert(text@.skip(0) == text@);
    while p < len
        invariant
            p <= len == chars@.len(),
            chars@ == text@,
            s@ == chars@,
            first_nonblank_line(text@.skip(p as int)) == first_nonblank_line(text@),
        decreases len - p,
    {
        let q = crate::text::find_char(s, p, '\n');
        let ghost rest = text@.skip(p as int);
        let hi = if q < len && q > p && chars[q - 1] == '\r' { q - 1 } else { q };
        assert(first_line(rest) == chars@.subrange(p as int, hi as int)) by {
            assert(rest.take(q - p) == chars@.subrange(p as int, q as int));
        }
        let (a, b) = trim_range(s, p, hi);
        if a < b {
            return Some(string_of_range(s, p, hi));
        }
        if q < len {
            assert(rest_lines(rest) == text@.skip(q + 1));
            p = q + 1;
        } else {
            assert(rest_lines(rest) == text@.skip(len as int));
            p = len;
        }
    }
    assert(text@.skip(len as int) == Seq::<char>::empty());
    None
}

/// The user's instruction, trimmed, when it says anything.
pub open spec fn instruction_goal(instruction: Option<Seq<char>>) -> Option<Seq<char>> {
    match instruction {
        Some(i) => if trim(i).len() > 0 { Some(trim(i)) } else { None },
        None => None,
    }
}

fn trimmed_instruction(instruction: Option<&str>) -> (goal: Option<String>)
    ensures
        match goal {
            Some(g) => instruction_goal(opt_str_view(instruction)) == Some(g@),
            None => instruction_goal(opt_str_view(instruction)) is None,
        },
{
    match instruction {
        Some(i) => {
            let t = crate::text::trimmed(i);
            if t.as_str().is_empty() {
                None
            } else {
                Some(t)
            }
        },
        None => None,
    }
}

pub open spec fn opt_str_view(s: Option<&str>) -> Option<Seq<char>> {
    match s {
        Some(x) => Some(x@),
        None => None,
    }
}

/// What the fallback plan aims at.
pub open spec fn fallback_goal(text: Seq<char>, instruction: Option<Seq<char>>) -> Seq<char> {
    collapse(
        match instruction_goal(instruction) {
            Some(g) => g,
            None => match first_nonblank_line(text) {
                Some(l) => l,
                None => "your goal"@,
            },
        },
    )
}

/// The progression used when a source names no topics: define, prepare,
/// attempt, review.
pub open spec fn spec_fallback_topics(text: Seq<char>, instruction: Option<Seq<char>>) -> Seq<Seq<char>> {
    let g = fallback_goal(text, instruction);
    seq![
        "Define success for "@ + g,
        "Prepare the foundations for "@ + g,
        "Complete a first practical attempt at "@ + g,
        "Review evidence and improve "@ + g,
    ]
}

fn prefixed(prefix: &str, goal: &String) -> (out: String)
    ensures
        out@ == prefix@ + goal@,
{
    let mut out = String::new();
    append(&mut out, prefix);
    append(&mut out, goal.as_str());
    out
}

pub fn fallback_topics(text: &str, instruction: Option<&str>) -> (topics: Vec<String>)
    ensures
        string_views(topics@) == spec_fallback_topics(text@, opt_str_view(instruction)),
{
    let source = match trimmed_instruction(instruction) {
        Some(g) => g,
        None => match nonblank_line(text) {
            Some(l) => l,
            None => "your goal".to_owned(),
        },
    };
    let goal = compact(source.as_str());
    let mut topics: Vec<String> = Vec::new();
    topics.push(prefixed("Define success for ", &goal));
    topics.push(prefixed("Prepare the foundations for ", &goal));
    topics.push(prefixed("Complete a first practical attempt at ", &goal));
    topics.push(prefixed("Review evidence and improve ", &goal));
    assert(string_views(topics@) =~= spec_fallback_topics(text@, opt_str_view(instruction)));
    topics
}

pub open spec fn kind_title(kind: ProgramKind) -> Seq<char> {
    match kind {
        ProgramKind::Curriculum => "Curriculum"@,
        ProgramKind::Routine => "Routine"@,
        ProgramKind::Project => "Project"@,
    }
}

pub open spec fn spec_title(text: Seq<char>, instruction: Option<Seq<char>>, kind: ProgramKind) -> Seq<char> {
    match instruction_goal(instruction) {
        Some(g) => collapse(g),
        None => match first_nonblank_line(text) {
            Some(l) => collapse(l),
            None => kind_title(kind),
        },
    }
}

/// The plan's title: the instruction, else the first line of the source,
/// else the shape's name.
pub fn title_for(text: &str, instruction: Option<&str>, kind: ProgramKind) -> (title: String)
    ensures
        title@ == spec_title(text@, opt_str_view(instruction), kind),
{
    match trimmed_instruction(instruction) {
        Some(g) => compact(g.as_str()),
        None => match nonblank_line(text) {
            Some(l) => compact(l.as_str()),
            None => match kind {
                ProgramKind::Curriculum => "Curriculum".to_owned(),
                ProgramKind::Routine => "Routine".to_owned(),
                ProgramKind::Project => "Project".to_owned(),
            },
        },
    }
}

pub open spec fn action_name(a: int) -> Seq<char> {
    if a == 0 {
        "Read and outline"@
    } else if a == 1 {
        "Practice"@
    } else {
        "Check"@
    }
}

pub open spec fn action_done(a: int) -> Seq<char> {
    if a == 0 {
        "Capture the key ideas and vocabulary"@
    } else if a == 1 {
        "Complete one small example or exercise"@
    } else {
        "Explain the result and record one open question"@
    }
}

pub open spec fn action_minutes(a: int) -> u16 {
    if a == 0 {
        12
    } else if a == 1 {
        18
    } else {
        10
    }
}

/// The topics a plan works through: the source's own, or the fallback
/// progression when it names none.
pub open spec fn plan_topics(text: Seq<char>, instruction: Option<Seq<char>>) -> Seq<Seq<char>> {
    if topics_of(text).len() == 0 {
        spec_fallback_topics(text, instruction)
    } else {
        topics_of(text)
    }
}

/// The plan's length: the hint, else one day per topic (28 when there are
/// too many to count), within one to 730 days.
pub open spec fn plan_duration(hint: Option<u16>, topic_count: int) -> int {
    let d = match hint {
        Some(h) => h as int,
        None => if topic_count <= u16::MAX { topic_count } else { 28 },
    };
    if d < 1 {
        1
    } else if d > 730 {
        730
    } else {
        d
    }
}

/// The action `a` of day `day`: topics are spread evenly over the days, and
/// each day reads, practises and checks its topic.
pub open spec fn planned_task(topics: Seq<Seq<char>>, day: int, a: int, duration: int, intensity: Intensity) -> GeneratedTaskView {
    let tc = if topics.len() >= 1 { topics.len() as int } else { 1 };
    let index = day * tc / duration;
    let topic = topics[if index < tc - 1 { index } else { tc - 1 }];
    GeneratedTaskView {
        title: action_name(a) + " "@ + topic,
        description: Some(
            "Why: move toward "@ + topic + ". Done when: "@ + action_done(a) + " for "@ + topic + ". Source: "@ + topic
                + "."@,
        ),
        category: Some(spec_category(topic)),
        difficulty: spec_difficulty(index, tc),
        estimated_minutes: spec_scale_minutes(action_minutes(a), intensity),
        cadence: CadenceView::Once { day_offset: day as u32 },
    }
}

pub open spec fn planned_tasks(topics: Seq<Seq<char>>, duration: int, intensity: Intensity, n: int) -> Seq<GeneratedTaskView> {
    Seq::new(n as nat, |j: int| planned_task(topics, j / 3, j % 3, duration, intensity))
}

/// Parts joined with `sep` between each two.
pub open spec fn join_with(parts: Seq<Seq<char>>, sep: Seq<char>) -> Seq<char>
    decreases parts.len(),
{
    if parts.len() == 0 {
        Seq::<char>::empty()
    } else if parts.len() == 1 {
        parts[0]
    } else {
        join_with(parts.drop_last(), sep) + sep + parts.last()
    }
}

pub open spec fn plan_summary(instruction: Option<Seq<char>>, topics: Seq<Seq<char>>) -> Seq<char> {
    match instruction_goal(instruction) {
        Some(g) => g,
        None => "A dependency-ordered plan for "@ + join_with(topics, ", "@) + "."@,
    }
}

/// The whole plan a source compiles into.
pub open spec fn spec_compile(
    text: Seq<char>,
    instruction: Option<Seq<char>>,
    kind: ProgramKind,
    duration_hint: Option<u16>,
    intensity: Intensity,
) -> GeneratedProgramView {
    let topics = plan_topics(text, instruction);
    let duration = plan_duration(duration_hint, topics.len() as int);
    GeneratedProgramView {
        title: spec_title(text, instruction, kind),
        summary: plan_summary(instruction, topics),
        kind,
        duration_days: duration as u16,
        tasks: planned_tasks(topics, duration, intensity, duration * 3),
        warnings: Seq::<Warning>::empty(),
    }
}

fn join_topics(topics: &Vec<String>) -> (joined: String)
    ensures
        joined@ == join_with(string_views(topics@), ", "@),
{
    let ghost views = string_views(topics@);
    let mut out = String::new();
    let mut i: usize = 0;
    while i < topics.len()
        invariant
            i <= topics@.len(),
            views == string_views(topics@),
            out@ == join_with(views.take(i as int), ", "@),
        decreases topics.len() - i,
    {
        assert(views.take(i + 1).drop_last() == views.take(i as int));
        assert(views.take(i + 1).last() == topics@[i as int]@);
        if i > 0 {
            append(&mut out, ", ");
        } else {
            assert(views.take(1)[0] == topics@[0]@);
            assert(out@ == Seq::<char>::empty());
        }
        append(&mut out, topics[i].as_str());
        i += 1;
    }
    assert(views.take(topics@.len() as int) == views);
    out
}

fn action_text(a: usize) -> (parts: (&'static str, &'static str, u16))
    requires
        a < 3,
    ensures
        parts.0@ == action_name(a as int),
        parts.1@ == action_done(a as int),
        parts.2 == action_minutes(a as int),
{
    if a == 0 {
        ("Read and outline", "Capture the key ideas and vocabulary", 12)
    } else if a == 1 {
        ("Practice", "Complete one small example or exercise", 18)
    } else {
        ("Check", "Explain the result and record one open question", 10)
    }
}

fn planned(topic: &String, day: u16, a: usize, index: usize, topic_count: usize, intensity: Intensity) -> (task: GeneratedTask)
    requires
        a < 3,
        index < usize::MAX,
    ensures
        task@ == (GeneratedTaskView {
            title: action_name(a as int) + " "@ + topic@,
            description: Some(
                "Why: move toward "@ + topic@ + ". Done when: "@ + action_done(a as int) + " for "@ + topic@
                    + ". Source: "@ + topic@ + "."@,
            ),
            category: Some(spec_category(topic@)),
            difficulty: spec_difficulty(index as int, topic_count as int),
            estimated_minutes: spec_scale_minutes(action_minutes(a as int), intensity),
            cadence: CadenceView::Once { day_offset: day as u32 },
        }),
{
    let (name, done, minutes) = action_text(a);
    let mut title = String::new();
    append(&mut title, name);
    append(&mut title, " ");
    append(&mut title, topic.as_str());
    let mut description = String::new();
    append(&mut description, "Why: move toward ");
    append(&mut description, topic.as_str());
    append(&mut description, ". Done when: ");
    append(&mut description, done);
    append(&mut description, " for ");
    append(&mut description, topic.as_str());
    append(&mut description, ". Source: ");
    append(&mut description, topic.as_str());
    append(&mut description, ".");
    GeneratedTask {
        title,
        description: Some(description),
        category: Some(category_for(topic.as_str())),
        difficulty: difficulty_for(index, topic_count),
        estimated_minutes: scale_minutes(minutes, intensity),
        cadence: Cadence::Once { day_offset: day as u32 },
    }
}

/// Compile source context into executable work: each day reads, practises
/// and checks one topic, topics spread evenly over the days.
pub fn compile(
    text: &str,
    instruction: Option<&str>,
    kind: ProgramKind,
    duration_hint: Option<u16>,
    intensity: Intensity,
) -> (program: GeneratedProgram)
    ensures
        program@ == spec_compile(text@, opt_str_view(instruction), kind, duration_hint, intensity),
{
    let found = extract_topics(text);
    let topics = if found.len() == 0 { fallback_topics(text, instruction) } else { found };
    let ghost tv = plan_topics(text@, opt_str_view(instruction));
    assert(string_views(topics@) == tv);
    let count = topics.len();
    let base: u32 = match duration_hint {
        Some(h) => h as u32,
        None => if count <= 65535 { count as u32 } else { 28 },
    };
    let duration: u16 = if base < 1 { 1 } else if base > 730 { 730 } else { base as u16 };
    let ghost dur = duration as int;
    assert(dur == plan_duration(duration_hint, tv.len() as int));
    let tc: usize = if count >= 1 { count } else { 1 };
    let mut tasks: Vec<GeneratedTask> = Vec::new();
    let mut day: u16 = 0;
    while day < duration
        invariant
            day <= duration <= 730,
            dur == duration as int,
            1 <= duration,
            tv == string_views(topics@),
            tc == (if tv.len() >= 1 { tv.len() as int } else { 1 }),
            tv.len() >= 1,
            crate::generate::task_views(tasks@) == planned_tasks(tv, dur, intensity, day * 3),
        decreases duration - day,
    {
        assert((day as int) * (tc as int) <= 730 * 0x1_0000_0000_0000_0000) by (nonlinear_arith)
            requires
                day < 730,
                tc <= 0x1_0000_0000_0000_0000,
        ;
        let index_wide: u128 = (day as u128) * (tc as u128) / (duration as u128);
        assert(index_wide < tc) by (nonlinear_arith)
            requires
                index_wide == (day as int) * (tc as int) / (duration as int),
                day < duration,
                duration >= 1,
                tc >= 1,
        ;
        let index = index_wide as usize;
        let pick = if index < tc - 1 { index } else { tc - 1 };
        let topic = &topics[pick];
        let mut a: usize = 0;
        while a < 3
            invariant
                a <= 3,
                day < duration,
                dur == duration as int,
                tv == string_views(topics@),
                tc == (if tv.len() >= 1 { tv.len() as int } else { 1 }),
                tv.len() >= 1,
                index == (day as int) * (tc as int) / dur,
                index < tc,
                pick < topics@.len(),
                pick == (if index < tc - 1 { index as int } else { tc - 1 }),
                topic@ == tv[pick as int],
                crate::generate::task_views(tasks@) == planned_tasks(tv, dur, intensity, day * 3 + a),
            decreases 3 - a,
        {
            let ghost before = crate::generate::task_views(tasks@);
            let t = planned(topic, day, a, index, tc, intensity);
            tasks.push(t);
            let ghost j = day * 3 + a;
            assert(j / 3 == day && j % 3 == a);
            assert(t@ == planned_task(tv, j / 3, j % 3, dur, intensity));
            assert(crate::generate::task_views(tasks@) == before.push(t@));
            assert(crate::generate::task_views(tasks@) =~= planned_tasks(tv, dur, intensity, j + 1));
            a += 1;
        }
        day += 1;
    }
    let summary = match trimmed_instruction(instruction) {
        Some(g) => g,
        None => {
            let mut s = String::new();
            append(&mut s, "A dependency-ordered plan for ");
            let joined = join_topics(&topics);
            append(&mut s, joined.as_str());
            append(&mut s, ".");
            s
        },
    };
    GeneratedProgram {
        title: title_for(text, instruction, kind),
        summary,
        kind,
        duration_days: duration,
        tasks,
        warnings: Vec::new(),
    }
}

/// A compiled plan has three actions on each of its one to 730 days, in day
/// order, each pinned to its day, of difficulty one to three and five to 480
/// minutes long, and no warnings.
pub proof fn lemma_plan_shape(
    text: Seq<char>,
    instruction: Option<Seq<char>>,
    kind: ProgramKind,
    duration_hint: Option<u16>,
    intensity: Intensity,
)
    ensures
        ({
            let p = spec_compile(text, instruction, kind, duration_hint, intensity);
            &&& 1 <= p.duration_days <= 730
            &&& p.tasks.len() == 3 * p.duration_days
            &&& p.warnings.len() == 0
            &&& forall|j: int|
                0 <= j < p.tasks.len() ==> (#[trigger] p.tasks[j]).cadence == CadenceView::Once { day_offset: (j / 3) as u32 }
                    && 1 <= p.tasks[j].difficulty <= 3 && 5 <= p.tasks[j].estimated_minutes <= 480
        }),
{
}

/// The same action takes fewer minutes at a light intensity than at a heavy
/// one.
pub proof fn lemma_lighter_is_shorter(a: int)
    requires
        0 <= a < 3,
    ensures
        spec_scale_minutes(action_minutes(a), Intensity::Light) < spec_scale_minutes(action_minutes(a), Intensity::Heavy),
{
}

/// Which of `topics` topics day `day` of a `duration`-day plan works on:
/// the topics are laid out in order over the days, day `d` taking topic
/// `floor(d * topics / duration)`.
pub open spec fn topic_of_day(day: int, topics: int, duration: int) -> int {
    let k = day * topics / duration;
    if k < topics - 1 { k } else { topics - 1 }
}

/// A compiled plan works through its topics in order: each day's three
/// actions are the read, practice and check of the topic that day falls on,
/// day `d` of `n` falling on topic `floor(d * topics / n)`. So the first day
/// starts on the first topic, the topic never goes backwards from one day to
/// a later one, and when there are at least as many days as topics the last
/// day is on the last topic.
pub proof fn lemma_topics_in_order(
    text: Seq<char>,
    instruction: Option<Seq<char>>,
    kind: ProgramKind,
    duration_hint: Option<u16>,
    intensity: Intensity,
)
    ensures
        ({
            let topics = plan_topics(text, instruction);
            let tc = topics.len() as int;
            let p = spec_compile(text, instruction, kind, duration_hint, intensity);
            let n = p.duration_days as int;
            &&& tc >= 1
            &&& forall|j: int|
                0 <= j < p.tasks.len() ==> (#[trigger] p.tasks[j]).title == action_name(j % 3) + " "@
                    + topics[topic_of_day(j / 3, tc, n)]
            &&& forall|d: int| 0 <= d < n ==> 0 <= #[trigger] topic_of_day(d, tc, n) < tc
            &&& topic_of_day(0, tc, n) == 0
            &&& forall|d1: int, d2: int|
                0 <= d1 <= d2 < n ==> #[trigger] topic_of_day(d1, tc, n) <= #[trigger] topic_of_day(d2, tc, n)
            &&& n >= tc ==> topic_of_day(n - 1, tc, n) == tc - 1
        }),
{
    let topics = plan_topics(text, instruction);
    let tc = topics.len() as int;
    let p = spec_compile(text, instruction, kind, duration_hint, intensity);
    let n = p.duration_days as int;
    assert(tc >= 1);
    assert(1 <= n <= 730);
    assert forall|d: int| 0 <= d < n implies 0 <= #[trigger] topic_of_day(d, tc, n) < tc by {
        assert(d * tc / n >= 0) by (nonlinear_arith)
            requires
                d >= 0,
                tc >= 1,
                n >= 1,
        ;
    }
    assert(0 * tc / n == 0) by (nonlinear_arith)
        requires
            n >= 1,
    ;
    assert forall|d1: int, d2: int| 0 <= d1 <= d2 < n implies #[trigger] topic_of_day(d1, tc, n)
        <= #[trigger] topic_of_day(d2, tc, n) by {
        assert(d1 * tc / n <= d2 * tc / n) by (nonlinear_arith)
            requires
                0 <= d1 <= d2,
                tc >= 1,
                n >= 1,
        ;
    }
    if n >= tc {
        assert((n - 1) * tc / n >= tc - 1) by (nonlinear_arith)
            requires
                n >= tc >= 1,
        ;
    }
}

} // verus!
