//! Interpreting what the classifier said about a source: which of three
//! shapes it is, and whether it is a plan at all.
use vstd::prelude::*;
use vstd::string::StrSliceExecFns;
use crate::text::{char_index, chars_of, find_char_before, range_equals, range_starts_with, trim, trim_bounds, trim_range};
use crate::types::ProgramKind;

verus! {

broadcast use vstd::string::group_string_axioms;

/// What to do after classification.
#[derive(Clone, Debug, PartialEq, Eq, Structural)]
pub enum ClassifyOutcome {
    /// Confident enough to generate without asking.
    Proceed(ProgramKind),
    /// Ambiguous: the user picks the shape before generation.
    AskUser { suggested: ProgramKind, confidence_percent: u8 },
}

#[derive(Clone, Debug, PartialEq, Eq)]
pub enum ClassifyError {
    /// Not a plan; carries the model's reason, shown to the user.
    NotAPlan { reason: Option<String> },
    Malformed(String),
}

/// Raw model output with surrounding whitespace and a fenced code block
/// around it, if any, removed; an opening fence's language tag goes with it.
pub open spec fn spec_strip_code_fence(raw: Seq<char>) -> Seq<char> {
    let t = trim(raw);
    if !"```"@.is_prefix_of(t) {
        t
    } else {
        let rest = t.skip(3);
        let nl = char_index(rest, '\n') as int;
        let body = if nl < rest.len() { rest.skip(nl + 1) } else { rest };
        let inner = if body.len() >= 3 && body.skip(body.len() - 3) == "```"@ {
            body.take(body.len() - 3)
        } else {
            body
        };
        trim(inner)
    }
}

/// Models wrap JSON in a fenced code block more often than they should.
pub fn strip_code_fence(raw: &str) -> (inner: &str)
    ensures
        inner@ == spec_strip_code_fence(raw@),
{
    let chars = chars_of(raw);
    let s = chars.as_slice();
    let (a, b) = trim_bounds(s);
    proof {
        reveal_strlit("```");
    }
    if !range_starts_with(s, a, b, "```") {
        return raw.substring_char(a, b);
    }
    let ghost t = chars@.subrange(a as int, b as int);
    let r0 = a + 3;
    let nl = find_char_before(s, r0, b, '\n');
    assert(t.skip(3) == chars@.subrange(r0 as int, b as int));
    let body_lo = if nl < b { nl + 1 } else { r0 };
    assert(nl < b ==> t.skip(3).skip(nl - r0 + 1) == chars@.subrange(body_lo as int, b as int));
    let ghost body = chars@.subrange(body_lo as int, b as int);
    let end = if b - body_lo >= 3 && range_equals(s, b - 3, b, "```") { b - 3 } else { b };
    assert(body.len() >= 3 ==> body.skip(body.len() - 3) == chars@.subrange(b - 3, b as int));
    assert(end == b - 3 ==> body.take(body.len() - 3) == chars@.subrange(body_lo as int, end as int));
    assert(end == b ==> body == chars@.subrange(body_lo as int, end as int));
    let (x, y) = trim_range(s, body_lo, end);
    raw.substring_char(x, y)
}

} // verus!
