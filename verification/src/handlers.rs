//! The decisions request handlers make around storage and extraction: how a
//! stored day becomes an artifact day, what names things are stored and
//! shown under, and which extractor an upload goes to.
use vstd::prelude::*;
use crate::artifact::{Cell, DaySummary};
use crate::pipeline::{lowercase_of, to_lowercase};
use crate::records::{DayStatus, RegisterDevicePlatform};
use crate::source::NormaliseError;
use crate::text::{
    char_index, chars_of, find_char, range_equals, range_starts_with, string_of_range, trim, trim_bounds, trim_range,
};
use crate::time::LocalDate;
use crate::types::Intensity;

verus! {

broadcast use vstd::string::group_string_axioms;

/// Why a stored day cannot go into an artifact.
#[derive(Clone, Copy, Debug, PartialEq, Eq, Structural)]
pub enum SummaryError {
    /// A day that is still open has not been finalised.
    OpenDay,
    /// A count does not fit.
    ValueOutOfRange,
}

impl SummaryError {
    pub fn message(&self) -> (text: &'static str)
        ensures
            text@ == (match *self {
                SummaryError::OpenDay => "open day cannot be compiled into completion artifact"@,
                SummaryError::ValueOutOfRange => "artifact value out of range"@,
            }),
    {
        match self {
            SummaryError::OpenDay => "open day cannot be compiled into completion artifact",
            SummaryError::ValueOutOfRange => "artifact value out of range",
        }
    }
}

pub open spec fn spec_cell(status: DayStatus) -> Result<Cell, SummaryError> {
    match status {
        DayStatus::Complete => Ok(Cell::Complete),
        DayStatus::Partial => Ok(Cell::Partial),
        DayStatus::Missed => Ok(Cell::Missed),
        DayStatus::Rest => Ok(Cell::Rest),
        DayStatus::Frozen => Ok(Cell::Frozen),
        DayStatus::Open => Err(SummaryError::OpenDay),
    }
}

/// How a finalised day is drawn; an open day has no cell.
pub fn cell_from_status(status: DayStatus) -> (cell: Result<Cell, SummaryError>)
    ensures
        cell == spec_cell(status),
{
    match status {
        DayStatus::Complete => Ok(Cell::Complete),
        DayStatus::Partial => Ok(Cell::Partial),
        DayStatus::Missed => Ok(Cell::Missed),
        DayStatus::Rest => Ok(Cell::Rest),
        DayStatus::Frozen => Ok(Cell::Frozen),
        DayStatus::Open => Err(SummaryError::OpenDay),
    }
}

pub fn i64_to_u32(value: i64) -> (result: Result<u32, SummaryError>)
    ensures
        0 <= value <= u32::MAX ==> result == Ok::<u32, SummaryError>(value as u32),
        !(0 <= value <= u32::MAX) ==> result == Err::<u32, SummaryError>(SummaryError::ValueOutOfRange),
{
    if value < 0 || value > 4294967295 {
        Err(SummaryError::ValueOutOfRange)
    } else {
        Ok(value as u32)
    }
}

pub open spec fn spec_cell_name(cell: Cell) -> Seq<char> {
    match cell {
        Cell::Complete => "complete"@,
        Cell::Partial => "partial"@,
        Cell::Missed => "missed"@,
        Cell::Rest => "rest"@,
        Cell::Frozen => "frozen"@,
    }
}

/// The name a heatmap cell is shown under.
pub fn cell_name(cell: Cell) -> (name: &'static str)
    ensures
        name@ == spec_cell_name(cell),
{
    match cell {
        Cell::Complete => "complete",
        Cell::Partial => "partial",
        Cell::Missed => "missed",
        Cell::Rest => "rest",
        Cell::Frozen => "frozen",
    }
}

/// Every finalised status keeps its own cell and name: no two statuses share
/// one, so the heatmap stays honest about what each day was.
pub proof fn lemma_cells_distinct(a: DayStatus, b: DayStatus)
    requires
        spec_cell(a) is Ok,
        spec_cell(b) is Ok,
        a != b,
    ensures
        spec_cell(a) != spec_cell(b),
        spec_cell_name(spec_cell(a)->Ok_0) != spec_cell_name(spec_cell(b)->Ok_0),
{
    reveal_strlit("complete");
    reveal_strlit("partial");
    reveal_strlit("missed");
    reveal_strlit("rest");
    reveal_strlit("frozen");
    let x = spec_cell_name(spec_cell(a)->Ok_0);
    let y = spec_cell_name(spec_cell(b)->Ok_0);
    assert(x[0] != y[0] || x.len() != y.len());
}

/// A day as the artifact query returns it.
#[derive(Clone, Debug, PartialEq, Eq)]
pub struct ArtifactDayRow {
    pub local_date: LocalDate,
    pub status: DayStatus,
    pub earned_points: i32,
    pub available_points: i32,
    pub note: Option<String>,
    pub tasks_completed: i64,
    pub minutes_invested: i64,
}

/// A stored day as the artifact needs it: refused if it is still open or a
/// count does not fit.
pub fn day_summary_from_row(row: ArtifactDayRow) -> (result: Result<DaySummary, SummaryError>)
    ensures
        match result {
            Ok(d) => spec_cell(row.status) == Ok::<Cell, SummaryError>(d.cell) && d.local_date == row.local_date
                && d.earned_points == row.earned_points && d.available_points == row.available_points
                && d.tasks_completed == row.tasks_completed && d.minutes_invested == row.minutes_invested
                && crate::types::opt_view(d.note) == crate::types::opt_view(row.note),
            Err(e) => spec_cell(row.status) == Err::<Cell, SummaryError>(e) || (spec_cell(row.status) is Ok && e
                == SummaryError::ValueOutOfRange && !(0 <= row.tasks_completed <= u32::MAX && 0 <= row.minutes_invested
                <= u32::MAX)),
        },
        spec_cell(row.status) is Ok && 0 <= row.tasks_completed <= u32::MAX && 0 <= row.minutes_invested <= u32::MAX
            ==> result is Ok,
{
    let cell = match cell_from_status(row.status) {
        Ok(c) => c,
        Err(e) => {
            return Err(e);
        },
    };
    let tasks_completed = match i64_to_u32(row.tasks_completed) {
        Ok(v) => v,
        Err(e) => {
            return Err(e);
        },
    };
    let minutes_invested = match i64_to_u32(row.minutes_invested) {
        Ok(v) => v,
        Err(e) => {
            return Err(e);
        },
    };
    Ok(
        DaySummary {
            local_date: row.local_date,
            cell,
            earned_points: row.earned_points,
            available_points: row.available_points,
            tasks_completed,
            minutes_invested,
            note: row.note,
        },
    )
}

/// The stored spelling of an intensity.
pub fn intensity_db_value(intensity: Intensity) -> (value: &'static str)
    ensures
        value@ == crate::program_request::intensity_name(intensity),
{
    match intensity {
        Intensity::Light => "light",
        Intensity::Standard => "standard",
        Intensity::Heavy => "heavy",
    }
}

/// What the client is told when a source could not be normalised.
pub fn map_normalise_error(error: NormaliseError) -> (message: &'static str)
    ensures
        message@ == (match error {
            NormaliseError::UnsupportedMime => "unsupported source type"@,
            NormaliseError::Empty => "source produced no usable text"@,
            NormaliseError::NeedsOcr => "source looks like a scan and needs OCR"@,
        }),
{
    match error {
        NormaliseError::UnsupportedMime => "unsupported source type",
        NormaliseError::Empty => "source produced no usable text",
        NormaliseError::NeedsOcr => "source looks like a scan and needs OCR",
    }
}

#[derive(Clone, Copy, Debug, PartialEq, Eq, Structural)]
pub enum DevicePlatformBody {
    Ios,
    Android,
    Web,
}

pub fn platform_to_db(platform: &DevicePlatformBody) -> (stored: RegisterDevicePlatform)
    ensures
        stored == (match platform {
            DevicePlatformBody::Ios => RegisterDevicePlatform::Ios,
            DevicePlatformBody::Android => RegisterDevicePlatform::Android,
            DevicePlatformBody::Web => RegisterDevicePlatform::Web,
        }),
{
    match platform {
        DevicePlatformBody::Ios => RegisterDevicePlatform::Ios,
        DevicePlatformBody::Android => RegisterDevicePlatform::Android,
        DevicePlatformBody::Web => RegisterDevicePlatform::Web,
    }
}

/// Where an uploaded file's text comes from.
#[derive(Clone, Copy, Debug, PartialEq, Eq, Structural)]
pub enum Extractor {
    /// The bytes are the text, if they are UTF-8.
    Utf8Text,
    /// The PDF extraction script.
    PdfScript,
    /// The image text-recognition script.
    ImageScript,
    /// The system document converter.
    Textutil,
    /// Nothing can extract it.
    Unsupported,
}

pub open spec fn ends_with(s: Seq<char>, suffix: Seq<char>) -> bool {
    suffix.len() <= s.len() && s.skip(s.len() - suffix.len()) == suffix
}

/// The extractor an upload goes to, by its MIME type without parameters and
/// its lower-cased file name.
pub open spec fn spec_extractor(mime: Seq<char>, lower_name: Seq<char>) -> Extractor {
    let m = crate::source::mime_essence(mime);
    if "text/"@.is_prefix_of(m) || ends_with(lower_name, ".txt"@) || ends_with(lower_name, ".md"@) || ends_with(
        lower_name,
        ".csv"@,
    ) || ends_with(lower_name, ".json"@) {
        Extractor::Utf8Text
    } else if m == "application/pdf"@ || ends_with(lower_name, ".pdf"@) {
        Extractor::PdfScript
    } else if "image/"@.is_prefix_of(m) {
        Extractor::ImageScript
    } else if m == "application/vnd.openxmlformats-officedocument.wordprocessingml.document"@ || ends_with(
        lower_name,
        ".docx"@,
    ) || ends_with(lower_name, ".rtf"@) || ends_with(lower_name, ".html"@) {
        Extractor::Textutil
    } else {
        Extractor::Unsupported
    }
}

fn chars_end_with(s: &[char], suffix: &str) -> (ends: bool)
    ensures
        ends == ends_with(s@, suffix@),
{
    let n = chars_of(suffix).len();
    if n > s.len() {
        return false;
    }
    let eq = range_equals(s, s.len() - n, s.len(), suffix);
    assert(s@.skip(s@.len() - n) == s@.subrange(s@.len() - n, s@.len() as int));
    eq
}

/// Which extractor an upload with this MIME type and file name goes to.
pub fn extraction_for(mime_type: &str, filename: &str) -> (extractor: Extractor)
    ensures
        extractor == spec_extractor(mime_type@, lowercase_of(filename@)),
{
    let lower = to_lowercase(filename);
    let name = chars_of(lower.as_str());
    let n = name.as_slice();
    let chars = chars_of(mime_type);
    let s = chars.as_slice();
    let semi = find_char(s, 0, ';');
    assert(chars@.skip(0) == chars@);
    let (lo, hi) = trim_range(s, 0, semi);
    assert(chars@.subrange(0, semi as int) == mime_type@.take(char_index(mime_type@, ';') as int));
    if range_starts_with(s, lo, hi, "text/") || chars_end_with(n, ".txt") || chars_end_with(n, ".md")
        || chars_end_with(n, ".csv") || chars_end_with(n, ".json") {
        Extractor::Utf8Text
    } else if range_equals(s, lo, hi, "application/pdf") || chars_end_with(n, ".pdf") {
        Extractor::PdfScript
    } else if range_starts_with(s, lo, hi, "image/") {
        Extractor::ImageScript
    } else if range_equals(s, lo, hi, "application/vnd.openxmlformats-officedocument.wordprocessingml.document")
        || chars_end_with(n, ".docx") || chars_end_with(n, ".rtf") || chars_end_with(n, ".html") {
        Extractor::Textutil
    } else {
        Extractor::Unsupported
    }
}

/// What a finished extraction command yields: its trimmed output, or, when
/// it failed, its trimmed error output or the fallback message if that is
/// blank; blank output is an error too.
pub open spec fn spec_command_text(success: bool, stderr: Seq<char>, stdout: Seq<char>, fallback: Seq<char>) -> Result<
    Seq<char>,
    Seq<char>,
> {
    if !success {
        Err(if trim(stderr).len() == 0 { fallback } else { trim(stderr) })
    } else if trim(stdout).len() == 0 {
        Err("file did not contain readable text"@)
    } else {
        Ok(trim(stdout))
    }
}

pub fn command_text(success: bool, stderr: &str, stdout: &str, fallback: &str) -> (result: Result<String, String>)
    ensures
        match result {
            Ok(t) => spec_command_text(success, stderr@, stdout@, fallback@) == Ok::<Seq<char>, Seq<char>>(t@),
            Err(e) => spec_command_text(success, stderr@, stdout@, fallback@) == Err::<Seq<char>, Seq<char>>(e@),
        },
{
    if !success {
        let err = chars_of(stderr);
        let (a, b) = trim_bounds(err.as_slice());
        if a == b {
            return Err(fallback.to_owned());
        }
        return Err(string_of_range(err.as_slice(), a, b));
    }
    let out = chars_of(stdout);
    let (a, b) = trim_bounds(out.as_slice());
    if a == b {
        return Err("file did not contain readable text".to_owned());
    }
    Ok(string_of_range(out.as_slice(), a, b))
}

/// The extension a temporary upload keeps: what follows the last dot, if it
/// is all ASCII letters and digits, and otherwise `upload`.
pub open spec fn spec_upload_extension(filename: Seq<char>) -> Seq<char> {
    if exists|i: int| 0 <= i < filename.len() && filename[i] == '.' {
        let i = choose|i: int|
            0 <= i < filename.len() && filename[i] == '.' && forall|j: int| i < j < filename.len() ==> filename[j] != '.';
        let ext = filename.skip(i + 1);
        if forall|k: int| 0 <= k < ext.len() ==> is_ascii_alphanumeric(#[trigger] ext[k]) {
            ext
        } else {
            "upload"@
        }
    } else {
        "upload"@
    }
}

pub open spec fn is_ascii_alphanumeric(c: char) -> bool {
    ('0' <= c <= '9') || ('a' <= c <= 'z') || ('A' <= c <= 'Z')
}

pub fn upload_extension(filename: &str) -> (ext: String)
    ensures
        ext@ == spec_upload_extension(filename@),
{
    let chars = chars_of(filename);
    let mut dot = chars.len();
    let mut found = false;
    while dot > 0 && !found
        invariant
            dot <= chars@.len(),
            chars@ == filename@,
            found ==> dot < chars@.len() && chars@[dot as int] == '.',
            forall|j: int| dot < j < chars@.len() ==> chars@[j] != '.',
            !found ==> forall|j: int| dot <= j < chars@.len() ==> chars@[j] != '.',
        decreases dot + if found { 0int } else { 1int },
    {
        if chars[dot - 1] == '.' {
            dot -= 1;
            found = true;
        } else {
            dot -= 1;
        }
    }
    if !found {
        assert(!exists|i: int| 0 <= i < filename@.len() && filename@[i] == '.');
        return "upload".to_owned();
    }
    proof {
        let i = choose|i: int|
            0 <= i < filename@.len() && filename@[i] == '.' && forall|j: int| i < j < filename@.len() ==> filename@[j]
                != '.';
        assert(i == dot) by {
            if i < dot {
                assert(filename@[dot as int] != '.');
            } else if i > dot {
                assert(filename@[i] != '.');
            }
        }
    }
    let ghost ext = filename@.skip(dot + 1);
    assert(spec_upload_extension(filename@) == (if forall|m: int| 0 <= m < ext.len() ==> is_ascii_alphanumeric(#[trigger] ext[m]) {
        ext
    } else {
        "upload"@
    }));
    let mut k = dot + 1;
    while k < chars.len()
        invariant
            dot < chars@.len(),
            chars@ == filename@,
            ext == filename@.skip(dot + 1),
            dot + 1 <= k <= chars@.len(),
            forall|j: int| dot + 1 <= j < k ==> is_ascii_alphanumeric(#[trigger] chars@[j]),
            spec_upload_extension(filename@) == (if forall|m: int| 0 <= m < ext.len() ==> is_ascii_alphanumeric(#[trigger] ext[m]) {
                ext
            } else {
                "upload"@
            }),
        decreases chars.len() - k,
    {
        let c = chars[k];
        if !(('0' <= c && c <= '9') || ('a' <= c && c <= 'z') || ('A' <= c && c <= 'Z')) {
            assert(ext[k - dot - 1] == c);
            assert(!is_ascii_alphanumeric(ext[k - dot - 1]));
            return "upload".to_owned();
        }
        k += 1;
    }
    assert forall|m: int| 0 <= m < filename@.skip(dot + 1).len() implies is_ascii_alphanumeric(
        #[trigger] filename@.skip(dot + 1)[m],
    ) by {
        assert(filename@.skip(dot + 1)[m] == chars@[dot + 1 + m]);
    }
    assert(chars@.subrange(dot + 1, chars@.len() as int) == filename@.skip(dot + 1));
    string_of_range(chars.as_slice(), dot + 1, chars.len())
}


/// A count read from the database, a missing one as zero.
pub open spec fn count_or_zero(count: Option<i64>) -> i64 {
    match count {
        Some(c) => c,
        None => 0,
    }
}

/// A day's completed and available task counts, from rows of
/// `(day, completed, available)`: the last row for that day wins, a missing
/// count reads as zero, and a day without a row has none of either.
pub open spec fn spec_day_counts(rows: Seq<(u128, Option<i64>, Option<i64>)>, day: u128) -> (i64, i64)
    decreases rows.len(),
{
    if rows.len() == 0 {
        (0, 0)
    } else if rows.last().0 == day {
        (count_or_zero(rows.last().1), count_or_zero(rows.last().2))
    } else {
        spec_day_counts(rows.drop_last(), day)
    }
}

pub fn day_task_counts(rows: &[(u128, Option<i64>, Option<i64>)], day: u128) -> (counts: (i64, i64))
    ensures
        counts == spec_day_counts(rows@, day),
{
    let mut i: usize = rows.len();
    assert(rows@.take(i as int) == rows@);
    while i > 0
        invariant
            i <= rows@.len(),
            spec_day_counts(rows@.take(i as int), day) == spec_day_counts(rows@, day),
        decreases i,
    {
        let (id, completed, available) = rows[i - 1];
        assert(rows@.take(i as int).last() == rows@[i - 1]);
        assert(rows@.take(i as int).drop_last() == rows@.take(i - 1));
        if id == day {
            let c: i64 = match completed {
                Some(v) => v,
                None => 0,
            };
            let a: i64 = match available {
                Some(v) => v,
                None => 0,
            };
            return (c, a);
        }
        i -= 1;
    }
    (0, 0)
}

} // verus!
