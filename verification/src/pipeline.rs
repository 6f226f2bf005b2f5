//! The decisions of an ingestion run: how a source is routed, what its text
//! suggests about its shape and length, what a failure is reported as, and
//! how the validated and calibrated program is put together.
use vstd::prelude::*;
use crate::calibrate::{views, Calibration};
use crate::generate::{copy_warnings, GeneratedProgram, GeneratedProgramView, Validated};
use crate::source::SourceKind;
use crate::text::{chars_contain, chars_of, has_infix, range_equals, range_starts_with};
use crate::types::{Intensity, ProgramKind, Warning};

verus! {

broadcast use vstd::string::group_string_axioms;

/// The lower-case form of a string, as `str::to_lowercase` produces it.
pub uninterp spec fn lowercase_of(s: Seq<char>) -> Seq<char>;

/// Calls `str::to_lowercase`; claims only that the result is that function's
/// value on these characters.
#[verifier::external_body]
pub(crate) fn to_lowercase(s: &str) -> (lower: String)
    ensures
        lower@ == lowercase_of(s@),
{
    s.to_lowercase()
}

/// Whether a character is alphanumeric, as `char::is_alphanumeric` decides.
pub uninterp spec fn alphanumeric(c: char) -> bool;

/// Calls `char::is_alphanumeric`; claims only that the answer is that
/// function's value on `c`.
#[verifier::external_body]
fn is_alphanumeric(c: char) -> (alnum: bool)
    ensures
        alnum == alphanumeric(c),
{
    c.is_alphanumeric()
}

/// The maximal runs of alphanumeric characters in `s`, in order.
pub open spec fn words_of(s: Seq<char>) -> Seq<Seq<char>>
    decreases s.len(),
{
    if s.len() == 0 {
        Seq::<Seq<char>>::empty()
    } else {
        let w = words_of(s.drop_last());
        let c = s.last();
        if !alphanumeric(c) {
            w
        } else if s.len() >= 2 && alphanumeric(s[s.len() - 2]) && w.len() > 0 {
            w.drop_last().push(w.last().push(c))
        } else {
            w.push(seq![c])
        }
    }
}

pub open spec fn word_views(words: Seq<Vec<char>>) -> Seq<Seq<char>> {
    words.map_values(|w: Vec<char>| w@)
}

/// The value of a run of ASCII digits, capped at 65536.
pub open spec fn capped_digits(s: Seq<char>) -> int
    decreases s.len(),
{
    if s.len() == 0 {
        0
    } else {
        let v = capped_digits(s.drop_last()) * 10 + (s.last() as int - 48);
        if v > 65536 { 65536 } else { v }
    }
}

pub open spec fn all_ascii_digits(s: Seq<char>) -> bool {
    forall|i: int| 0 <= i < s.len() ==> '0' <= #[trigger] s[i] <= '9'
}

/// What `u16::from_str` makes of `w`: an optional `+` and at least one ASCII
/// digit, whose value fits.
pub open spec fn spec_parse_u16(w: Seq<char>) -> Option<u16> {
    let d = if w.len() > 0 && w[0] == '+' { w.skip(1) } else { w };
    if d.len() > 0 && all_ascii_digits(d) && capped_digits(d) <= u16::MAX {
        Some(capped_digits(d) as u16)
    } else {
        None
    }
}

pub open spec fn clamp_days(n: int) -> u16 {
    if n < 1 {
        1
    } else if n > 730 {
        730
    } else {
        n as u16
    }
}

/// The first number followed by a word starting with `week` or `day`,
/// turned into days.
pub open spec fn duration_from_words(ws: Seq<Seq<char>>) -> Option<u16>
    decreases ws.len(),
{
    if ws.len() < 2 {
        None
    } else {
        match spec_parse_u16(ws[0]) {
            Some(n) => if "week"@.is_prefix_of(ws[1]) {
                Some(clamp_days(if n * 7 > u16::MAX { u16::MAX as int } else { n * 7 }))
            } else if "day"@.is_prefix_of(ws[1]) {
                Some(clamp_days(n as int))
            } else {
                duration_from_words(ws.skip(1))
            },
            None => duration_from_words(ws.skip(1)),
        }
    }
}

fn parse_u16(w: &[char]) -> (n: Option<u16>)
    ensures
        n == spec_parse_u16(w@),
{
    let start: usize = if w.len() > 0 && w[0] == '+' { 1 } else { 0 };
    let ghost d = if w@.len() > 0 && w@[0] == '+' { w@.skip(1) } else { w@ };
    assert(d == w@.subrange(start as int, w@.len() as int));
    if start >= w.len() {
        return None;
    }
    let mut acc: u32 = 0;
    let mut i: usize = start;
    while i < w.len()
        invariant
            start <= i <= w@.len(),
            d == w@.subrange(start as int, w@.len() as int),
            d == (if w@.len() > 0 && w@[0] == '+' { w@.skip(1) } else { w@ }),
            acc == capped_digits(w@.subrange(start as int, i as int)),
            all_ascii_digits(w@.subrange(start as int, i as int)),
            acc <= 65536,
        decreases w.len() - i,
    {
        let c = w[i];
        if c < '0' || c > '9' {
            assert(!all_ascii_digits(d)) by {
                assert(d[i - start] == c);
            }
            return None;
        }
        let ghost before = w@.subrange(start as int, i as int);
        assert(w@.subrange(start as int, i + 1).drop_last() == before);
        let digit = (c as u32) - 48;
        let v = acc * 10 + digit;
        acc = if v > 65536 { 65536 } else { v };
        i += 1;
    }
    if acc > 65535 {
        None
    } else {
        Some(acc as u16)
    }
}

fn split_words(text: &[char]) -> (words: Vec<Vec<char>>)
    ensures
        word_views(words@) == words_of(text@),
{
    let mut words: Vec<Vec<char>> = Vec::new();
    let mut prev_alnum = false;
    let mut i: usize = 0;
    while i < text.len()
        invariant
            i <= text@.len(),
            word_views(words@) == words_of(text@.take(i as int)),
            prev_alnum == (i > 0 && alphanumeric(text@[i - 1])),
            prev_alnum ==> words@.len() > 0,
        decreases text.len() - i,
    {
        let c = text[i];
        let ghost before = word_views(words@);
        assert(text@.take(i + 1).drop_last() == text@.take(i as int));
        assert(text@.take(i + 1).last() == c);
        let alnum = is_alphanumeric(c);
        if alnum {
            if prev_alnum {
                let mut last = words.pop().unwrap();
                last.push(c);
                words.push(last);
                assert(word_views(words@) =~= before.drop_last().push(before.last().push(c)));
                assert(text@.take(i + 1)[i - 1] == text@[i - 1]);
            } else {
                let mut fresh: Vec<char> = Vec::new();
                fresh.push(c);
                words.push(fresh);
                assert(word_views(words@) =~= before.push(seq![c]));
                if i > 0 {
                    assert(text@.take(i + 1)[i - 1] == text@[i - 1]);
                }
            }
        }
        prev_alnum = alnum;
        i += 1;
    }
    assert(text@.take(text@.len() as int) == text@);
    words
}

pub open spec fn spec_infer_duration(text: Seq<char>) -> Option<u16> {
    duration_from_words(words_of(text))
}

/// A duration named in the text: a number followed by a word starting with
/// `week` (taken as that many weeks) or `day`, within one to 730 days.
pub fn infer_duration_days(text: &str) -> (days: Option<u16>)
    ensures
        days == spec_infer_duration(text@),
{
    let chars = chars_of(text);
    let words = split_words(chars.as_slice());
    let ghost ws = word_views(words@);
    proof {
        reveal_strlit("week");
        reveal_strlit("day");
    }
    let mut i: usize = 0;
    assert(ws.skip(0) == ws);
    while words.len() >= 2 && i < words.len() - 1
        invariant
            i <= words@.len(),
            ws == word_views(words@),
            ws == words_of(text@),
            duration_from_words(ws.skip(i as int)) == duration_from_words(ws),
        decreases words.len() - i,
    {
        let ghost rest = ws.skip(i as int);
        assert(rest[0] == words@[i as int]@);
        assert(rest[1] == words@[i + 1]@);
        assert(rest.skip(1) == ws.skip(i + 1));
        let amount = parse_u16(words[i].as_slice());
        match amount {
            Some(n) => {
                let unit = words[i + 1].as_slice();
                assert(unit@.subrange(0, unit@.len() as int) == unit@);
                if range_starts_with(unit, 0, unit.len(), "week") {
                    let weeks: u32 = n as u32 * 7;
                    let capped: u32 = if weeks > 65535 { 65535 } else { weeks };
                    let days: u16 = if capped < 1 { 1 } else if capped > 730 { 730 } else { capped as u16 };
                    assert(spec_parse_u16(rest[0]) == Some(n));
                    assert("week"@.is_prefix_of(rest[1]));
                    assert(duration_from_words(rest) == Some(days));
                    return Some(days);
                }
                if range_starts_with(unit, 0, unit.len(), "day") {
                    let days: u16 = if n < 1 { 1 } else if n > 730 { 730 } else { n };
                    return Some(days);
                }
            },
            None => {},
        }
        i += 1;
    }
    assert(ws.skip(i as int).len() < 2);
    assert(duration_from_words(ws.skip(i as int)) == None::<u16>);
    None
}

pub open spec fn spec_routine_markers(t: Seq<char>) -> bool {
    ||| has_infix(t, "daily"@)
    ||| has_infix(t, "every day"@)
    ||| has_infix(t, "monday"@)
    ||| has_infix(t, "tuesday"@)
    ||| has_infix(t, "wednesday"@)
    ||| has_infix(t, "thursday"@)
    ||| has_infix(t, "friday"@)
    ||| has_infix(t, "saturday"@)
    ||| has_infix(t, "sunday"@)
    ||| has_infix(t, "weekdays"@)
    ||| has_infix(t, "3x"@)
    ||| has_infix(t, "2x"@)
    ||| has_infix(t, "times a week"@)
}

/// Whether the text reads like something that repeats.
pub fn has_routine_markers(text: &str) -> (routine: bool)
    ensures
        routine == spec_routine_markers(text@),
{
    let chars = chars_of(text);
    let t = chars.as_slice();
    chars_contain(t, "daily") || chars_contain(t, "every day") || chars_contain(t, "monday") || chars_contain(
        t,
        "tuesday",
    ) || chars_contain(t, "wednesday") || chars_contain(t, "thursday") || chars_contain(t, "friday")
        || chars_contain(t, "saturday") || chars_contain(t, "sunday") || chars_contain(t, "weekdays")
        || chars_contain(t, "3x") || chars_contain(t, "2x") || chars_contain(t, "times a week")
}

pub open spec fn spec_curriculum_markers(t: Seq<char>) -> bool {
    ||| ((has_infix(t, "learning plan"@) || has_infix(t, "study plan"@) || has_infix(t, "course"@)) && (has_infix(
        t,
        "learn"@,
    ) || has_infix(t, "beginner"@) || has_infix(t, "study"@)))
    ||| has_infix(t, "day 1"@)
    ||| has_infix(t, "week 1"@)
    ||| has_infix(t, "chapter 1"@)
    ||| has_infix(t, "lesson 1"@)
    ||| has_infix(t, "module 1"@)
    ||| has_infix(t, "session 1"@)
}

/// Whether the text reads like a course of study.
pub fn has_curriculum_markers(text: &str) -> (curriculum: bool)
    ensures
        curriculum == spec_curriculum_markers(text@),
{
    let chars = chars_of(text);
    let t = chars.as_slice();
    if (chars_contain(t, "learning plan") || chars_contain(t, "study plan") || chars_contain(t, "course")) && (
    chars_contain(t, "learn") || chars_contain(t, "beginner") || chars_contain(t, "study")) {
        return true;
    }
    chars_contain(t, "day 1") || chars_contain(t, "week 1") || chars_contain(t, "chapter 1") || chars_contain(
        t,
        "lesson 1",
    ) || chars_contain(t, "module 1") || chars_contain(t, "session 1")
}

/// The error code a failed normalisation is reported under, read from its
/// message.
pub fn ingest_error_code(message: &str) -> (code: &'static str)
    ensures
        code@ == (if has_infix(message@, "scan"@) {
            "needs_ocr"@
        } else if has_infix(message@, "usable text"@) {
            "empty_source"@
        } else {
            "ingest_failed"@
        }),
{
    let chars = chars_of(message);
    if chars_contain(chars.as_slice(), "scan") {
        "needs_ocr"
    } else if chars_contain(chars.as_slice(), "usable text") {
        "empty_source"
    } else {
        "ingest_failed"
    }
}

/// The intensity a stored value names; anything unrecognised is standard.
pub fn intensity_from_db(value: &str) -> (intensity: Intensity)
    ensures
        intensity == (if value@ == "light"@ {
            Intensity::Light
        } else if value@ == "heavy"@ {
            Intensity::Heavy
        } else {
            Intensity::Standard
        }),
{
    let chars = chars_of(value);
    assert(chars@.subrange(0, chars@.len() as int) == chars@);
    if range_equals(chars.as_slice(), 0, chars.len(), "light") {
        Intensity::Light
    } else if range_equals(chars.as_slice(), 0, chars.len(), "heavy") {
        Intensity::Heavy
    } else {
        Intensity::Standard
    }
}

/// The extractor a source goes to: its MIME type's, or plain text when it
/// has none or an unknown one.
pub fn source_kind_for(mime: Option<&str>) -> (kind: SourceKind)
    ensures
        kind == (match mime {
            Some(m) => match crate::source::spec_from_mime(m@) {
                Some(k) => k,
                None => SourceKind::Text,
            },
            None => SourceKind::Text,
        }),
{
    match mime {
        Some(m) => match SourceKind::from_mime(m) {
            Some(k) => k,
            None => SourceKind::Text,
        },
        None => SourceKind::Text,
    }
}

/// The shape and length the text itself suggests, before any model runs.
#[derive(Clone, Copy, Debug, PartialEq, Eq, Structural)]
pub struct HeuristicClassification {
    pub kind: ProgramKind,
    pub suggested_duration_days: Option<u16>,
}

/// The source text and the user's instruction, one line apart, lower-cased.
pub open spec fn combined_lower(text: Seq<char>, instruction: Option<Seq<char>>) -> Seq<char> {
    lowercase_of(
        text.push('\n') + match instruction {
            Some(i) => i,
            None => Seq::<char>::empty(),
        },
    )
}

pub open spec fn spec_classify(lower: Seq<char>) -> HeuristicClassification {
    HeuristicClassification {
        kind: if spec_routine_markers(lower) {
            ProgramKind::Routine
        } else if spec_curriculum_markers(lower) {
            ProgramKind::Curriculum
        } else {
            ProgramKind::Project
        },
        suggested_duration_days: spec_infer_duration(lower),
    }
}

/// Classify a source from its text and instruction: anything that repeats is
/// a routine, a course of study is a curriculum, and the rest is a project.
pub fn classify_source(text: &str, instruction: Option<&str>) -> (c: HeuristicClassification)
    ensures
        c == spec_classify(
            combined_lower(
                text@,
                match instruction {
                    Some(i) => Some(i@),
                    None => None,
                },
            ),
        ),
{
    let mut combined = String::new();
    let tc = chars_of(text);
    let mut i: usize = 0;
    while i < tc.len()
        invariant
            i <= tc@.len(),
            tc@ == text@,
            combined@ == text@.take(i as int),
        decreases tc.len() - i,
    {
        combined.push(tc[i]);
        assert(text@.take(i + 1) == text@.take(i as int).push(tc@[i as int]));
        i += 1;
    }
    assert(text@.take(text@.len() as int) == text@);
    combined.push('\n');
    let ghost head = combined@;
    match instruction {
        Some(ins) => {
            let ic = chars_of(ins);
            let mut j: usize = 0;
            while j < ic.len()
                invariant
                    j <= ic@.len(),
                    ic@ == ins@,
                    combined@ == head + ins@.take(j as int),
                decreases ic.len() - j,
            {
                combined.push(ic[j]);
                assert(ins@.take(j + 1) == ins@.take(j as int).push(ic@[j as int]));
                j += 1;
            }
            assert(ins@.take(ins@.len() as int) == ins@);
        },
        None => {
            assert(combined@ == head + Seq::<char>::empty());
        },
    }
    let lower = to_lowercase(combined.as_str());
    let duration = infer_duration_days(lower.as_str());
    let kind = if has_routine_markers(lower.as_str()) {
        ProgramKind::Routine
    } else if has_curriculum_markers(lower.as_str()) {
        ProgramKind::Curriculum
    } else {
        ProgramKind::Project
    };
    HeuristicClassification { kind, suggested_duration_days: duration }
}

/// What happens to a job whose run failed.
#[derive(Clone, Copy, Debug, PartialEq, Eq, Structural)]
pub enum JobFailure {
    /// Out of attempts: the job is marked failed for good.
    GiveUp,
    /// Run it again a minute from now.
    RetryLater,
}

/// A failed job is given up once it has used all its attempts.
pub fn after_failure(attempts: i32, max_attempts: i32) -> (action: JobFailure)
    ensures
        action == (if attempts >= max_attempts { JobFailure::GiveUp } else { JobFailure::RetryLater }),
{
    if attempts >= max_attempts {
        JobFailure::GiveUp
    } else {
        JobFailure::RetryLater
    }
}

/// The program as it is stored once ready: the calibrated duration and tasks,
/// and validation's warnings followed by calibration's.
pub open spec fn spec_ready(v: GeneratedProgramView, validation_warnings: Seq<Warning>, c: crate::calibrate::CalibrationView) -> (
    GeneratedProgramView,
    Seq<Warning>,
) {
    let warnings = validation_warnings + c.warnings;
    (GeneratedProgramView { duration_days: c.duration_days as u16, tasks: c.tasks, warnings, ..v }, warnings)
}

/// Put the ready program together from what validation and calibration
/// produced.
pub fn ready_program(validated: Validated, calibration: Calibration) -> (ready: (GeneratedProgram, Vec<Warning>))
    ensures
        (ready.0@, ready.1@) == spec_ready(validated.program@, validated.warnings@, calibration@),
{
    let mut warnings = validated.warnings;
    let ghost head = warnings@;
    let mut k: usize = 0;
    while k < calibration.warnings.len()
        invariant
            k <= calibration.warnings@.len(),
            warnings@ == head + calibration.warnings@.take(k as int),
        decreases calibration.warnings.len() - k,
    {
        warnings.push(calibration.warnings[k]);
        assert(calibration.warnings@.take(k + 1) == calibration.warnings@.take(k as int).push(
            calibration.warnings@[k as int],
        ));
        k += 1;
    }
    assert(calibration.warnings@.take(calibration.warnings@.len() as int) == calibration.warnings@);
    let stored = copy_warnings(&warnings);
    let program = validated.program;
    let ready = GeneratedProgram {
        title: program.title,
        summary: program.summary,
        kind: program.kind,
        duration_days: calibration.duration_days,
        tasks: calibration.tasks,
        warnings: stored,
    };
    assert(crate::generate::task_views(ready.tasks@) == views(calibration.tasks@));
    (ready, warnings)
}

/// Pull a generated draft into range, calibrate it against the intensity's
/// daily budget, and put the ready program together; a draft validation
/// refuses is refused with its error.
pub fn ready_draft(draft: GeneratedProgram, confidence_clamped: bool, intensity: Intensity) -> (ready: Result<
    (GeneratedProgram, Vec<Warning>),
    crate::generate::GenerateError,
>)
    ensures
        match crate::generate::spec_validate_program(draft@, confidence_clamped) {
            Err(e) => ready == Err::<(GeneratedProgram, Vec<Warning>), crate::generate::GenerateError>(e),
            Ok((p, ws)) => ready matches Ok((r, w)) && (r@, w@) == spec_ready(
                p,
                ws,
                crate::calibrate::spec_calibrate(p.tasks, p.duration_days as int, intensity),
            ),
        },
{
    let ghost input = draft@;
    let validated = match crate::generate::validate(draft, confidence_clamped) {
        Ok(v) => v,
        Err(e) => {
            return Err(e);
        },
    };
    proof {
        crate::generate::lemma_validated_in_range(input, confidence_clamped);
        let p = validated.program@;
        assert forall|i: int|
            0 <= i < p.tasks.len() && crate::calibrate::needs_split(#[trigger] p.tasks[i]) implies crate::types::spec_pinned_day(
            p.tasks[i],
        )->0 + crate::calibrate::parts_for(p.tasks[i].estimated_minutes as int) - 1 <= u32::MAX by {
            assert(crate::generate::task_in_range(p.tasks[i], input.tasks[i], i, p.duration_days));
        }
        assert(views(validated.program.tasks@) == p.tasks);
    }
    let tasks = crate::generate::copy_tasks(&validated.program.tasks);
    let calibration = crate::calibrate::calibrate(tasks, validated.program.duration_days, intensity);
    Ok(ready_program(validated, calibration))
}

/// Why an ingestion request was refused before any work started.
#[derive(Clone, Copy, Debug, PartialEq, Eq, Structural)]
pub enum IngestRequestError {
    SourceTextRequired,
    UnsupportedSourceType,
    Normalise(crate::source::NormaliseError),
}

/// A source accepted for ingestion: its MIME type (plain text when none was
/// given), where it routes, and its normalised text and hash.
pub fn accept_source(source_text: &str, mime_type: Option<&str>) -> (accepted: Result<
    (String, SourceKind, crate::source::Normalised),
    IngestRequestError,
>)
    ensures
        ({
            let mime = match mime_type {
                Some(m) => m@,
                None => "text/plain"@,
            };
            &&& crate::text::trim(source_text@).len() == 0 ==> accepted == Err::<
                (String, SourceKind, crate::source::Normalised),
                IngestRequestError,
            >(IngestRequestError::SourceTextRequired)
            &&& crate::text::trim(source_text@).len() > 0 && crate::source::spec_from_mime(mime) is None ==> accepted
                == Err::<(String, SourceKind, crate::source::Normalised), IngestRequestError>(
                IngestRequestError::UnsupportedSourceType,
            )
            &&& crate::text::trim(source_text@).len() > 0 && crate::source::spec_from_mime(mime) is Some
                && crate::source::canonical(source_text@).len() < crate::source::MIN_USABLE_CHARS ==> accepted
                == Err::<(String, SourceKind, crate::source::Normalised), IngestRequestError>(
                IngestRequestError::Normalise(crate::source::NormaliseError::Empty),
            )
            &&& crate::text::trim(source_text@).len() > 0 && crate::source::spec_from_mime(mime) is Some
                && crate::source::canonical(source_text@).len() >= crate::source::MIN_USABLE_CHARS ==> (accepted matches Ok(
                (m, kind, n),
            ) && m@ == mime && crate::source::spec_from_mime(mime) == Some(kind) && n.text@
                == crate::source::canonical(source_text@) && n.content_hash@ == crate::source::sha256_of(
                vstd::utf8::encode_utf8(crate::source::canonical(source_text@)),
            ))
        }),
{
    let chars = chars_of(source_text);
    let (a, b) = crate::text::trim_bounds(chars.as_slice());
    if a == b {
        return Err(IngestRequestError::SourceTextRequired);
    }
    let mime: String = match mime_type {
        Some(m) => m.to_owned(),
        None => "text/plain".to_owned(),
    };
    let kind = match SourceKind::from_mime(mime.as_str()) {
        Some(k) => k,
        None => {
            return Err(IngestRequestError::UnsupportedSourceType);
        },
    };
    let extracted = crate::source::Extracted { text: source_text.to_owned(), pages: None };
    match crate::source::normalise(&extracted, kind) {
        Ok(n) => Ok((mime, kind, n)),
        Err(e) => Err(IngestRequestError::Normalise(e)),
    }
}

/// Where a program comes from on an ingestion run.
#[derive(Clone, Copy, Debug, PartialEq, Eq, Structural)]
pub enum GenerationMode {
    /// A model is configured: it generates.
    Model,
    /// No model, and the deterministic planner was chosen explicitly.
    Deterministic,
    /// Neither: the run fails with `ai_not_configured`.
    NotConfigured,
}

/// A model is used when its key is set to something other than whitespace;
/// otherwise only an explicit `deterministic` provider runs the planner.
pub fn generation_mode(api_key: Option<&str>, provider: Option<&str>) -> (mode: GenerationMode)
    ensures
        mode == (if api_key matches Some(k) && crate::text::trim(k@).len() > 0 {
            GenerationMode::Model
        } else if provider matches Some(p) && p@ == "deterministic"@ {
            GenerationMode::Deterministic
        } else {
            GenerationMode::NotConfigured
        }),
{
    match api_key {
        Some(k) => {
            let chars = chars_of(k);
            let (a, b) = crate::text::trim_bounds(chars.as_slice());
            if a < b {
                return GenerationMode::Model;
            }
        },
        None => {},
    }
    match provider {
        Some(p) => {
            let chars = chars_of(p);
            assert(chars@.subrange(0, chars@.len() as int) == chars@);
            if range_equals(chars.as_slice(), 0, chars.len(), "deterministic") {
                GenerationMode::Deterministic
            } else {
                GenerationMode::NotConfigured
            }
        },
        None => GenerationMode::NotConfigured,
    }
}

/// The most of a source a model is shown.
pub const MODEL_SOURCE_CHARS: usize = 120000;

pub open spec fn kind_debug(kind: ProgramKind) -> Seq<char> {
    match kind {
        ProgramKind::Curriculum => "Curriculum"@,
        ProgramKind::Routine => "Routine"@,
        ProgramKind::Project => "Project"@,
    }
}

pub open spec fn hint_debug(hint: Option<u16>) -> Seq<char> {
    match hint {
        Some(h) => "Some("@ + crate::text::decimal(h as nat) + ")"@,
        None => "None"@,
    }
}

/// What a model is asked with: the user's direction, the program's shape,
/// the daily capacity and duration hint, then the start of the source.
pub open spec fn spec_model_input(
    instruction: Option<Seq<char>>,
    kind: ProgramKind,
    cap: u16,
    duration_hint: Option<u16>,
    source: Seq<char>,
) -> Seq<char> {
    let direction = match instruction {
        Some(i) => i,
        None => "No extra direction"@,
    };
    let shown = if source.len() > MODEL_SOURCE_CHARS { source.take(MODEL_SOURCE_CHARS as int) } else { source };
    "User direction: "@ + direction + "\nProgram shape: "@ + kind_debug(kind) + "\nDaily capacity: "@
        + crate::text::decimal(cap as nat) + " minutes\nDuration hint: "@ + hint_debug(duration_hint)
        + "\n\nSOURCE CONTEXT:\n"@ + shown
}

pub fn model_input(
    instruction: Option<&str>,
    kind: ProgramKind,
    cap: u16,
    duration_hint: Option<u16>,
    source: &str,
) -> (input: String)
    ensures
        input@ == spec_model_input(
            match instruction {
                Some(i) => Some(i@),
                None => None,
            },
            kind,
            cap,
            duration_hint,
            source@,
        ),
{
    let mut out = String::new();
    crate::text::append(&mut out, "User direction: ");
    match instruction {
        Some(i) => crate::text::append(&mut out, i),
        None => crate::text::append(&mut out, "No extra direction"),
    }
    crate::text::append(&mut out, "\nProgram shape: ");
    match kind {
        ProgramKind::Curriculum => crate::text::append(&mut out, "Curriculum"),
        ProgramKind::Routine => crate::text::append(&mut out, "Routine"),
        ProgramKind::Project => crate::text::append(&mut out, "Project"),
    }
    crate::text::append(&mut out, "\nDaily capacity: ");
    crate::text::push_decimal_u64(&mut out, cap as u64);
    crate::text::append(&mut out, " minutes\nDuration hint: ");
    match duration_hint {
        Some(h) => {
            crate::text::append(&mut out, "Some(");
            crate::text::push_decimal_u64(&mut out, h as u64);
            crate::text::append(&mut out, ")");
        },
        None => crate::text::append(&mut out, "None"),
    }
    crate::text::append(&mut out, "\n\nSOURCE CONTEXT:\n");
    let chars = chars_of(source);
    let shown = if chars.len() > MODEL_SOURCE_CHARS { MODEL_SOURCE_CHARS } else { chars.len() };
    let ghost head = out@;
    let mut i: usize = 0;
    while i < shown
        invariant
            i <= shown <= chars@.len(),
            chars@ == source@,
            out@ == head + chars@.take(i as int),
        decreases shown - i,
    {
        out.push(chars[i]);
        assert(chars@.take(i + 1) == chars@.take(i as int).push(chars@[i as int]));
        i += 1;
    }
    assert(chars@.take(shown as int) == (if source@.len() > MODEL_SOURCE_CHARS {
        source@.take(MODEL_SOURCE_CHARS as int)
    } else {
        source@
    }));
    out
}

} // verus!
