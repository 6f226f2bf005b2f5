//! Normalising a source: route it by MIME type, canonicalise its text, hash
//! it, and cut it into chunks a model reads to the end of.
//!
//! Extraction from binary formats is I/O and happens before this; what lives
//! here is everything deterministic about the text that came back.
use vstd::prelude::*;
use vstd::utf8::encode_utf8;
use sha2::Digest;
use crate::text::{
    char_index, char_is_control, char_is_whitespace, chars_of, find_char, is_control, is_whitespace,
    range_equals, range_starts_with, string_of_range, trim, trim_end, trim_range, trim_start,
};

verus! {

broadcast use vstd::string::group_string_axioms;

/// Below this many characters per page a PDF is almost certainly a scan.
pub const SCANNED_PDF_CHARS_PER_PAGE: usize = 100;

/// Chunk size for the map stage.
pub const CHUNK_TARGET_CHARS: usize = 12000;

/// Below this there is nothing to send a model. Deliberately low: a typed
/// sentence is a legitimate source.
pub const MIN_USABLE_CHARS: usize = 10;

#[derive(Clone, Copy, Debug, PartialEq, Eq, Structural)]
pub enum SourceKind {
    Text,
    Markdown,
    Pdf,
    Docx,
    Image,
    Audio,
    Url,
}

/// A MIME type without its parameters and surrounding whitespace.
pub open spec fn mime_essence(mime: Seq<char>) -> Seq<char> {
    trim(mime.take(char_index(mime, ';') as int))
}

/// The extractor a MIME type routes to.
pub open spec fn spec_from_mime(mime: Seq<char>) -> Option<SourceKind> {
    let e = mime_essence(mime);
    if e == "text/plain"@ {
        Some(SourceKind::Text)
    } else if e == "text/markdown"@ || e == "text/x-markdown"@ {
        Some(SourceKind::Markdown)
    } else if e == "application/pdf"@ {
        Some(SourceKind::Pdf)
    } else if e == "application/vnd.openxmlformats-officedocument.wordprocessingml.document"@ {
        Some(SourceKind::Docx)
    } else if e == "text/html"@ {
        Some(SourceKind::Url)
    } else if "image/"@.is_prefix_of(e) {
        Some(SourceKind::Image)
    } else if "audio/"@.is_prefix_of(e) {
        Some(SourceKind::Audio)
    } else {
        None
    }
}

impl SourceKind {
    /// Route a MIME type to the extractor that handles it.
    pub fn from_mime(mime: &str) -> (kind: Option<SourceKind>)
        ensures
            kind == spec_from_mime(mime@),
    {
        let chars = chars_of(mime);
        let semi = find_char(chars.as_slice(), 0, ';');
        assert(chars@.skip(0) == chars@);
        let (lo, hi) = trim_range(chars.as_slice(), 0, semi);
        assert(chars@.subrange(0, semi as int) == mime@.take(char_index(mime@, ';') as int));
        let s = chars.as_slice();
        if range_equals(s, lo, hi, "text/plain") {
            Some(SourceKind::Text)
        } else if range_equals(s, lo, hi, "text/markdown") || range_equals(s, lo, hi, "text/x-markdown") {
            Some(SourceKind::Markdown)
        } else if range_equals(s, lo, hi, "application/pdf") {
            Some(SourceKind::Pdf)
        } else if range_equals(
            s,
            lo,
            hi,
            "application/vnd.openxmlformats-officedocument.wordprocessingml.document",
        ) {
            Some(SourceKind::Docx)
        } else if range_equals(s, lo, hi, "text/html") {
            Some(SourceKind::Url)
        } else if range_starts_with(s, lo, hi, "image/") {
            Some(SourceKind::Image)
        } else if range_starts_with(s, lo, hi, "audio/") {
            Some(SourceKind::Audio)
        } else {
            None
        }
    }

    /// Whether this kind needs an out-of-process extractor.
    pub fn needs_external_extraction(self) -> (external: bool)
        ensures
            external == (self is Pdf || self is Docx || self is Image || self is Audio),
    {
        matches!(self, SourceKind::Pdf | SourceKind::Docx | SourceKind::Image | SourceKind::Audio)
    }
}

/// What an extractor produced. `pages` only means something for paged
/// formats, and is what makes the scanned-PDF check possible.
#[derive(Clone, Debug, PartialEq, Eq)]
pub struct Extracted {
    pub text: String,
    pub pages: Option<usize>,
}

#[derive(Clone, Debug, PartialEq, Eq)]
pub struct Normalised {
    pub text: String,
    /// sha256 of the UTF-8 encoding of the normalised text.
    pub content_hash: [u8; 32],
}

/// The lower-case hexadecimal digit for `n` in `0..16`.
pub open spec fn hex_digit(n: int) -> char {
    if n < 10 {
        (48 + n) as char
    } else {
        (87 + n) as char
    }
}

/// Two lower-case hexadecimal digits per byte.
pub open spec fn hex_of(bytes: Seq<u8>) -> Seq<char>
    decreases bytes.len(),
{
    if bytes.len() == 0 {
        seq![]
    } else {
        hex_of(bytes.drop_last()) + seq![hex_digit((bytes.last() / 16) as int), hex_digit((bytes.last() % 16) as int)]
    }
}

proof fn lemma_hex_len(bytes: Seq<u8>)
    ensures
        hex_of(bytes).len() == 2 * bytes.len(),
    decreases bytes.len(),
{
    if bytes.len() > 0 {
        lemma_hex_len(bytes.drop_last());
    }
}

fn hex_digit_char(n: u8) -> (c: char)
    requires
        n < 16,
    ensures
        c == hex_digit(n as int),
{
    if n < 10 {
        (48u8 + n) as char
    } else {
        (87u8 + n) as char
    }
}

impl Normalised {
    /// The content hash as lower-case hexadecimal.
    pub fn hash_hex(&self) -> (hex: String)
        ensures
            hex@ == hex_of(self.content_hash@),
            hex@.len() == 64,
    {
        let mut out = String::new();
        let mut i: usize = 0;
        while i < 32
            invariant
                i <= 32,
                self.content_hash@.len() == 32,
                out@ == hex_of(self.content_hash@.take(i as int)),
            decreases 32 - i,
        {
            let byte = self.content_hash[i];
            out.push(hex_digit_char(byte / 16));
            out.push(hex_digit_char(byte % 16));
            assert(self.content_hash@.take(i + 1).drop_last() == self.content_hash@.take(i as int));
            assert(out@ == hex_of(self.content_hash@.take(i + 1)));
            i += 1;
        }
        assert(self.content_hash@.take(32) == self.content_hash@);
        proof {
            lemma_hex_len(self.content_hash@);
        }
        out
    }
}

#[derive(Clone, Copy, Debug, PartialEq, Eq, Structural)]
pub enum NormaliseError {
    UnsupportedMime,
    Empty,
    NeedsOcr,
}

impl NormaliseError {
    /// What went wrong, in words.
    pub fn message(&self) -> (text: &'static str)
        ensures
            text@ == (match *self {
                NormaliseError::UnsupportedMime => "unsupported source type"@,
                NormaliseError::Empty => "source produced no usable text"@,
                NormaliseError::NeedsOcr => "source looks like a scan and needs OCR"@,
            }),
    {
        match self {
            NormaliseError::UnsupportedMime => "unsupported source type",
            NormaliseError::Empty => "source produced no usable text",
            NormaliseError::NeedsOcr => "source looks like a scan and needs OCR",
        }
    }
}

/// Whether an extraction is too sparse for its page count to be real text.
pub open spec fn spec_looks_scanned(text: Seq<char>, pages: Option<usize>) -> bool {
    match pages {
        Some(count) => count > 0 && (text.len() as int) / (count as int) < SCANNED_PDF_CHARS_PER_PAGE as int,
        None => false,
    }
}

/// Whether an extraction is too sparse for its page count to be real text.
pub fn looks_scanned(text: &str, pages: Option<usize>) -> (scanned: bool)
    ensures
        scanned == spec_looks_scanned(text@, pages),
{
    match pages {
        Some(count) => {
            if count == 0 {
                return false;
            }
            let chars = chars_of(text);
            chars.len() / count < SCANNED_PDF_CHARS_PER_PAGE
        },
        None => false,
    }
}

/// The first position of `c` lies within the text, and holds `c` when it is
/// not the end.
pub proof fn lemma_char_index_bound(s: Seq<char>, c: char)
    ensures
        char_index(s, c) <= s.len(),
        char_index(s, c) < s.len() ==> s[char_index(s, c) as int] == c,
    decreases s.len(),
{
    if s.len() > 0 && s[0] != c {
        lemma_char_index_bound(s.drop_first(), c);
    }
}

/// Every `\r\n` and every lone `\r` turned into `\n`.
pub open spec fn newlines_unified(s: Seq<char>) -> Seq<char>
    decreases s.len(),
{
    if s.len() == 0 {
        s
    } else if s[0] == '\r' && s.len() > 1 && s[1] == '\n' {
        seq!['\n'] + newlines_unified(s.skip(2))
    } else if s[0] == '\r' {
        seq!['\n'] + newlines_unified(s.skip(1))
    } else {
        seq![s[0]] + newlines_unified(s.skip(1))
    }
}

/// `s` without control characters, tabs excepted.
pub open spec fn keep_printable(s: Seq<char>) -> Seq<char>
    decreases s.len(),
{
    if s.len() == 0 {
        s
    } else {
        let kept = keep_printable(s.drop_last());
        if !is_control(s.last()) || s.last() == '\t' {
            kept.push(s.last())
        } else {
            kept
        }
    }
}

/// A line as it goes into the canonical text.
pub open spec fn clean_line(line: Seq<char>) -> Seq<char> {
    trim_end(keep_printable(line))
}

/// The lines of `s`, cleaned, each followed by a newline, with runs of blank
/// lines collapsed to one. `prev_blank` says whether the line before `s` was
/// blank.
pub open spec fn canon_lines(s: Seq<char>, prev_blank: bool) -> Seq<char>
    decreases s.len(),
{
    if s.len() == 0 {
        seq![]
    } else {
        proof {
            lemma_char_index_bound(s, '\n');
        }
        let i = char_index(s, '\n') as int;
        let line = clean_line(s.take(i));
        let rest = if i < s.len() { s.skip(i + 1) } else { Seq::<char>::empty() };
        if line.len() == 0 && prev_blank {
            canon_lines(rest, true)
        } else {
            line.push('\n') + canon_lines(rest, line.len() == 0)
        }
    }
}

/// The canonical text a hash is taken over: line endings unified, control
/// characters other than tabs dropped, trailing whitespace trimmed from every
/// line, blank-line runs collapsed, and the whole trimmed.
pub open spec fn canonical(raw: Seq<char>) -> Seq<char> {
    trim(canon_lines(newlines_unified(raw), false))
}

fn unify_newlines(c: &[char]) -> (out: Vec<char>)
    ensures
        out@ == newlines_unified(c@),
{
    let mut out: Vec<char> = Vec::new();
    let mut i: usize = 0;
    assert(c@.skip(0) == c@);
    assert(out@ + newlines_unified(c@) == newlines_unified(c@));
    while i < c.len()
        invariant
            i <= c.len(),
            out@ + newlines_unified(c@.skip(i as int)) == newlines_unified(c@),
        decreases c.len() - i,
    {
        let ghost s = c@.skip(i as int);
        let ghost before = out@;
        if c[i] == '\r' && i + 1 < c.len() && c[i + 1] == '\n' {
            out.push('\n');
            assert(s.skip(2) == c@.skip(i + 2));
            assert(out@ + newlines_unified(c@.skip(i + 2)) == before + newlines_unified(s));
            i += 2;
        } else {
            if c[i] == '\r' {
                out.push('\n');
            } else {
                out.push(c[i]);
            }
            assert(s.skip(1) == c@.skip(i + 1));
            assert(out@ + newlines_unified(c@.skip(i + 1)) == before + newlines_unified(s));
            i += 1;
        }
    }
    assert(c@.skip(c@.len() as int) == Seq::<char>::empty());
    assert(out@ + Seq::<char>::empty() == out@);
    out
}

/// Collapse a raw extraction into the canonical text the hash is taken over.
fn canonicalise(raw: &str) -> (text: String)
    ensures
        text@ == canonical(raw@),
{
    let chars = chars_of(raw);
    let u = unify_newlines(chars.as_slice());
    let len = u.len();
    let mut out: Vec<char> = Vec::new();
    let mut prev_blank = false;
    let mut p: usize = 0;
    assert(u@.skip(0) == u@);
    assert(out@ + canon_lines(u@, false) == canon_lines(u@, false));
    while p < len
        invariant
            p <= len == u@.len(),
            out@ + canon_lines(u@.skip(p as int), prev_blank) == canon_lines(u@, false),
        decreases len - p,
    {
        let q = find_char(u.as_slice(), p, '\n');
        let mut cleaned: Vec<char> = Vec::new();
        let mut j: usize = p;
        while j < q
            invariant
                p <= j <= q <= len == u@.len(),
                cleaned@ == keep_printable(u@.subrange(p as int, j as int)),
            decreases q - j,
        {
            let ch = u[j];
            assert(u@.subrange(p as int, j + 1).drop_last() == u@.subrange(p as int, j as int));
            if !char_is_control(ch) || ch == '\t' {
                cleaned.push(ch);
            }
            j += 1;
        }
        let mut end = cleaned.len();
        while end > 0 && char_is_whitespace(cleaned[end - 1])
            invariant
                end <= cleaned@.len(),
                forall|k: int| end <= k < cleaned@.len() ==> is_whitespace(#[trigger] cleaned@[k]),
            decreases end,
        {
            end -= 1;
        }
        proof {
            crate::text::lemma_trim_end_at(cleaned@, end as int);
        }
        let ghost s = u@.skip(p as int);
        let ghost before = out@;
        let ghost was_blank = prev_blank;
        let ghost line = clean_line(s.take(q - p));
        assert(s.take(q - p) == u@.subrange(p as int, q as int));
        assert(line == cleaned@.take(end as int));
        let blank = end == 0;
        if !(blank && prev_blank) {
            let mut k: usize = 0;
            while k < end
                invariant
                    k <= end <= cleaned@.len(),
                    out@ == before + cleaned@.take(k as int),
                decreases end - k,
            {
                out.push(cleaned[k]);
                assert(cleaned@.take(k + 1) == cleaned@.take(k as int).push(cleaned@[k as int]));
                k += 1;
            }
            out.push('\n');
            assert(out@ == before + line.push('\n'));
        }
        prev_blank = blank;
        if q < len {
            assert(s.skip(q - p + 1) == u@.skip(q + 1));
            assert(out@ + canon_lines(u@.skip(q + 1), prev_blank) == before + canon_lines(s, was_blank));
            p = q + 1;
        } else {
            assert(u@.skip(len as int) == Seq::<char>::empty());
            assert(out@ + canon_lines(u@.skip(len as int), prev_blank) == before + canon_lines(s, was_blank));
            p = len;
        }
    }
    assert(u@.skip(len as int) == Seq::<char>::empty());
    assert(out@ + Seq::<char>::empty() == out@);
    let (a, b) = crate::text::trim_bounds(out.as_slice());
    string_of_range(out.as_slice(), a, b)
}

/// The sha256 digest of `bytes`, as `sha2` computes it.
pub uninterp spec fn sha256_of(bytes: Seq<u8>) -> Seq<u8>;

/// Calls `sha2::Sha256::digest`. Claims only that the 32 bytes returned are the
/// digest of the bytes passed in; nothing about the digest itself is stated.
#[verifier::external_body]
fn sha256(bytes: &[u8]) -> (digest: [u8; 32])
    ensures
        digest@ == sha256_of(bytes@),
{
    sha2::Sha256::digest(bytes).into()
}

/// Canonicalise an extraction and hash it.
///
/// A PDF whose text is too sparse for its page count is a scan and needs OCR;
/// otherwise fewer than `MIN_USABLE_CHARS` characters is an empty source.
pub fn normalise(extracted: &Extracted, kind: SourceKind) -> (result: Result<Normalised, NormaliseError>)
    ensures
        ({
            let text = canonical(extracted.text@);
            let scanned = kind is Pdf && spec_looks_scanned(extracted.text@, extracted.pages);
            &&& scanned ==> result == Err::<Normalised, NormaliseError>(NormaliseError::NeedsOcr)
            &&& !scanned && text.len() < MIN_USABLE_CHARS ==> result == Err::<Normalised, NormaliseError>(
                NormaliseError::Empty,
            )
            &&& !scanned && text.len() >= MIN_USABLE_CHARS ==> (result matches Ok(n) && n.text@ == text
                && n.content_hash@ == sha256_of(encode_utf8(text)))
        }),
{
    let text = canonicalise(extracted.text.as_str());
    let count = chars_of(text.as_str()).len();
    if count < MIN_USABLE_CHARS {
        if matches!(kind, SourceKind::Pdf) && looks_scanned(extracted.text.as_str(), extracted.pages) {
            return Err(NormaliseError::NeedsOcr);
        }
        return Err(NormaliseError::Empty);
    }
    if matches!(kind, SourceKind::Pdf) && looks_scanned(extracted.text.as_str(), extracted.pages) {
        return Err(NormaliseError::NeedsOcr);
    }
    let content_hash = sha256(text.as_str().as_bytes());
    Ok(Normalised { text, content_hash })
}

/// The index of the first blank-line separator `\n\n` in `s`, or its length.
pub open spec fn para_index(s: Seq<char>) -> nat
    decreases s.len(),
{
    if s.len() < 2 {
        s.len()
    } else if s[0] == '\n' && s[1] == '\n' {
        0
    } else {
        1 + para_index(s.drop_first())
    }
}

/// A paragraph break found in the text lies within it, with room for both of
/// its newlines.
pub proof fn lemma_para_index_bound(s: Seq<char>)
    ensures
        para_index(s) <= s.len(),
        para_index(s) < s.len() ==> para_index(s) + 2 <= s.len(),
    decreases s.len(),
{
    if s.len() >= 2 && !(s[0] == '\n' && s[1] == '\n') {
        lemma_para_index_bound(s.drop_first());
    }
}

proof fn lemma_para_index(s: Seq<char>, i: int)
    requires
        0 <= i <= s.len(),
        forall|j: int| 0 <= j < i && j + 1 < s.len() ==> !(#[trigger] s[j] == '\n' && s[j + 1] == '\n'),
        i == s.len() || (i + 1 < s.len() && s[i] == '\n' && s[i + 1] == '\n'),
    ensures
        para_index(s) == i,
    decreases i,
{
    if i > 0 && s.len() >= 2 {
        assert(!(s[0] == '\n' && s[1] == '\n'));
        let t = s.drop_first();
        assert forall|j: int| 0 <= j < i - 1 && j + 1 < t.len() implies !(#[trigger] t[j] == '\n' && t[j + 1] == '\n') by {
            assert(t[j] == s[j + 1] && t[j + 1] == s[j + 2]);
        }
        lemma_para_index(t, i - 1);
    }
}

/// One paragraph folded into the chunks so far and the chunk being built:
/// blank paragraphs are skipped, and the chunk being built is closed first
/// when the paragraph would take it past the target.
pub open spec fn chunk_step(chunks: Seq<Seq<char>>, current: Seq<char>, para: Seq<char>, target: int) -> (
    Seq<Seq<char>>,
    Seq<char>,
) {
    let p = trim(para);
    if p.len() == 0 {
        (chunks, current)
    } else {
        let flush = current.len() > 0 && current.len() + p.len() + 2 > target;
        let chunks2 = if flush { chunks.push(current) } else { chunks };
        let cur2 = if flush { Seq::<char>::empty() } else { current };
        (chunks2, if cur2.len() > 0 { cur2 + seq!['\n', '\n'] + p } else { p })
    }
}

/// The paragraphs of `s`, separated by `\n\n`, folded in order.
pub open spec fn chunk_paras(s: Seq<char>, target: int, chunks: Seq<Seq<char>>, current: Seq<char>) -> (
    Seq<Seq<char>>,
    Seq<char>,
)
    decreases s.len(),
{
    proof {
        lemma_para_index_bound(s);
    }
    let i = para_index(s) as int;
    let (c2, cur2) = chunk_step(chunks, current, s.take(i), target);
    if i < s.len() {
        chunk_paras(s.skip(i + 2), target, c2, cur2)
    } else {
        (c2, cur2)
    }
}

/// The chunks of `text`: text within the target is one chunk; longer text
/// is cut between paragraphs, and a paragraph longer than the target on its
/// own stays whole.
pub open spec fn spec_chunk(text: Seq<char>, target_chars: usize) -> Seq<Seq<char>> {
    let t: int = if target_chars > 0 { target_chars as int } else { 1 };
    if text.len() <= t {
        if text.len() == 0 { Seq::<Seq<char>>::empty() } else { seq![text] }
    } else {
        let (c, cur) = chunk_paras(text, t, Seq::<Seq<char>>::empty(), Seq::<char>::empty());
        if cur.len() > 0 { c.push(cur) } else { c }
    }
}

pub open spec fn views_of(v: Seq<String>) -> Seq<Seq<char>> {
    v.map_values(|s: String| s@)
}

/// Cut normalised text into chunks for the map stage.
pub fn chunk(text: &str, target_chars: usize) -> (chunks: Vec<String>)
    ensures
        views_of(chunks@) == spec_chunk(text@, target_chars),
{
    let target: usize = if target_chars > 0 { target_chars } else { 1 };
    let u = chars_of(text);
    let len = u.len();
    let mut chunks: Vec<String> = Vec::new();
    if len <= target {
        if len > 0 {
            chunks.push(text.to_owned());
        }
        assert(views_of(chunks@) =~= spec_chunk(text@, target_chars));
        return chunks;
    }
    let ghost total = chunk_paras(u@, target as int, Seq::<Seq<char>>::empty(), Seq::<char>::empty());
    let mut current: Vec<char> = Vec::new();
    let mut p: usize = 0;
    let mut done = false;
    assert(u@.skip(0) == u@);
    assert(views_of(chunks@) =~= Seq::<Seq<char>>::empty());
    while !done
        invariant
            p <= len == u@.len(),
            len >= 2,
            target >= 1,
            !done ==> chunk_paras(u@.skip(p as int), target as int, views_of(chunks@), current@) == total,
            done ==> (views_of(chunks@), current@) == total,
        decreases len - p + if done { 0int } else { 1int },
    {
        // Find the end of this paragraph.
        let mut q = p;
        while q < len - 1 && !(u[q] == '\n' && u[q + 1] == '\n')
            invariant
                p <= q <= len == u@.len(),
                len >= 2,
                forall|j: int| p <= j < q && j + 1 < len ==> !(#[trigger] u@[j] == '\n' && u@[j + 1] == '\n'),
            decreases len - q,
        {
            q += 1;
        }
        if q >= len - 1 {
            q = len;
        }
        let ghost s = u@.skip(p as int);
        proof {
            assert forall|j: int| 0 <= j < q - p && j + 1 < s.len() implies !(#[trigger] s[j] == '\n' && s[j + 1] == '\n') by {
                assert(s[j] == u@[p + j] && s[j + 1] == u@[p + j + 1]);
            }
            if q < len {
                assert(s[q - p] == u@[q as int] && s[q - p + 1] == u@[q + 1]);
            }
            lemma_para_index(s, q - p);
        }
        let ghost before_chunks = views_of(chunks@);
        let ghost before_current = current@;
        assert(s.take(q - p) == u@.subrange(p as int, q as int));
        let (a, b) = trim_range(u.as_slice(), p, q);
        if a < b {
            let plen = b - a;
            let projected_over = if target < 2 {
                true
            } else if plen > target - 2 {
                true
            } else {
                current.len() > target - 2 - plen
            };
            if current.len() > 0 && projected_over {
                let piece = crate::text::string_of(current.as_slice());
                chunks.push(piece);
                current = Vec::new();
                assert(views_of(chunks@) =~= before_chunks.push(before_current));
            }
            if current.len() > 0 {
                current.push('\n');
                current.push('\n');
            }
            let ghost with_sep = current@;
            let mut k = a;
            while k < b
                invariant
                    a <= k <= b <= u@.len(),
                    current@ == with_sep + u@.subrange(a as int, k as int),
                decreases b - k,
            {
                current.push(u[k]);
                assert(u@.subrange(a as int, k + 1) == u@.subrange(a as int, k as int).push(u@[k as int]));
                k += 1;
            }
        }
        assert((views_of(chunks@), current@) == chunk_step(before_chunks, before_current, s.take(q - p), target as int));
        if q < len {
            assert(s.skip(q - p + 2) == u@.skip(q + 2));
            p = q + 2;
        } else {
            done = true;
        }
    }
    if current.len() > 0 {
        let piece = crate::text::string_of(current.as_slice());
        chunks.push(piece);
    }
    assert(views_of(chunks@) =~= spec_chunk(text@, target_chars));
    chunks
}

/// The non-blank paragraphs of `s`, trimmed, in order.
pub open spec fn paragraphs(s: Seq<char>) -> Seq<Seq<char>>
    decreases s.len(),
{
    proof {
        lemma_para_index_bound(s);
    }
    let i = para_index(s) as int;
    let p = trim(s.take(i));
    let rest = if i < s.len() { paragraphs(s.skip(i + 2)) } else { Seq::<Seq<char>>::empty() };
    if p.len() > 0 { seq![p] + rest } else { rest }
}

/// Pieces joined with a blank line between each two.
pub open spec fn join_paragraphs(parts: Seq<Seq<char>>) -> Seq<char>
    decreases parts.len(),
{
    if parts.len() == 0 {
        Seq::<char>::empty()
    } else if parts.len() == 1 {
        parts[0]
    } else {
        join_paragraphs(parts.drop_last()) + seq!['\n', '\n'] + parts.last()
    }
}

pub open spec fn all_nonempty(parts: Seq<Seq<char>>) -> bool {
    forall|k: int| 0 <= k < parts.len() ==> (#[trigger] parts[k]).len() > 0
}

/// The finished chunks plus the one being built, if it holds anything.
pub open spec fn flush_current(chunks: Seq<Seq<char>>, current: Seq<char>) -> Seq<Seq<char>> {
    if current.len() > 0 { chunks.push(current) } else { chunks }
}

proof fn lemma_paragraphs_nonempty(s: Seq<char>)
    ensures
        all_nonempty(paragraphs(s)),
    decreases s.len(),
{
    lemma_para_index_bound(s);
    let i = para_index(s) as int;
    if i < s.len() {
        lemma_paragraphs_nonempty(s.skip(i + 2));
    }
}

proof fn lemma_join_merge(x: Seq<Seq<char>>, a: Seq<char>, b: Seq<char>, r: Seq<Seq<char>>)
    ensures
        join_paragraphs(x.push(a + seq!['\n', '\n'] + b) + r) == join_paragraphs(x.push(a).push(b) + r),
    decreases r.len(),
{
    if r.len() == 0 {
        assert(x.push(a + seq!['\n', '\n'] + b) + r == x.push(a + seq!['\n', '\n'] + b));
        assert(x.push(a).push(b) + r == x.push(a).push(b));
        assert(x.push(a).push(b).drop_last() == x.push(a));
        assert(x.push(a + seq!['\n', '\n'] + b).drop_last() == x);
        assert(x.push(a).drop_last() == x);
        let sep = seq!['\n', '\n'];
        if x.len() == 0 {
            assert(join_paragraphs(x.push(a)) == a);
            assert(join_paragraphs(x.push(a + sep + b)) == a + sep + b);
        } else {
            assert(join_paragraphs(x.push(a)) == join_paragraphs(x) + sep + a);
            assert(join_paragraphs(x.push(a + sep + b)) == join_paragraphs(x) + sep + (a + sep + b));
            assert(join_paragraphs(x) + sep + (a + sep + b) =~= join_paragraphs(x) + sep + a + sep + b);
        }
        assert(join_paragraphs(x.push(a).push(b)) == join_paragraphs(x.push(a)) + sep + b);
    } else {
        let r2 = r.drop_last();
        lemma_join_merge(x, a, b, r2);
        assert(x.push(a + seq!['\n', '\n'] + b) + r == (x.push(a + seq!['\n', '\n'] + b) + r2).push(r.last()));
        assert(x.push(a).push(b) + r == (x.push(a).push(b) + r2).push(r.last()));
        assert((x.push(a + seq!['\n', '\n'] + b) + r2).push(r.last()).drop_last() == x.push(a + seq!['\n', '\n'] + b) + r2);
        assert((x.push(a).push(b) + r2).push(r.last()).drop_last() == x.push(a).push(b) + r2);
    }
}

proof fn lemma_chunk_step_join(chunks: Seq<Seq<char>>, current: Seq<char>, para: Seq<char>, target: int, r: Seq<Seq<char>>)
    requires
        all_nonempty(chunks),
    ensures
        ({
            let (c2, cur2) = chunk_step(chunks, current, para, target);
            let p = trim(para);
            let added = if p.len() > 0 { seq![p] } else { Seq::<Seq<char>>::empty() };
            &&& all_nonempty(c2)
            &&& join_paragraphs(flush_current(c2, cur2) + r) == join_paragraphs(
                flush_current(chunks, current) + added + r,
            )
        }),
{
    let p = trim(para);
    if p.len() == 0 {
        assert(flush_current(chunks, current) + Seq::<Seq<char>>::empty() == flush_current(chunks, current));
    } else {
        let flush = current.len() > 0 && current.len() + p.len() + 2 > target;
        if flush {
            assert(flush_current(chunks.push(current), p) == flush_current(chunks, current) + seq![p]);
            assert(all_nonempty(chunks.push(current)));
        } else if current.len() > 0 {
            lemma_join_merge(chunks, current, p, r);
            assert(flush_current(chunks, current) + seq![p] == chunks.push(current).push(p));
        } else {
            assert(flush_current(chunks, current) + seq![p] == chunks.push(p));
        }
    }
}

proof fn lemma_chunk_paras_join(s: Seq<char>, target: int, chunks: Seq<Seq<char>>, current: Seq<char>)
    requires
        all_nonempty(chunks),
    ensures
        ({
            let (c, cur) = chunk_paras(s, target, chunks, current);
            &&& all_nonempty(c)
            &&& join_paragraphs(flush_current(c, cur)) == join_paragraphs(flush_current(chunks, current) + paragraphs(s))
        }),
    decreases s.len(),
{
    lemma_para_index_bound(s);
    let i = para_index(s) as int;
    let p = trim(s.take(i));
    let added = if p.len() > 0 { seq![p] } else { Seq::<Seq<char>>::empty() };
    let (c2, cur2) = chunk_step(chunks, current, s.take(i), target);
    if i < s.len() {
        let rest = paragraphs(s.skip(i + 2));
        lemma_chunk_paras_join(s.skip(i + 2), target, c2, cur2);
        lemma_paragraphs_nonempty(s.skip(i + 2));
        lemma_chunk_step_join(chunks, current, s.take(i), target, rest);
        assert(paragraphs(s) == added + rest);
        assert(flush_current(chunks, current) + added + rest == flush_current(chunks, current) + paragraphs(s));
    } else {
        lemma_chunk_step_join(chunks, current, s.take(i), target, Seq::<Seq<char>>::empty());
        assert(paragraphs(s) == added);
        assert(flush_current(c2, cur2) + Seq::<Seq<char>>::empty() == flush_current(c2, cur2));
        assert(flush_current(chunks, current) + added + Seq::<Seq<char>>::empty() == flush_current(chunks, current)
            + paragraphs(s));
    }
}

/// Chunking never drops content: text longer than the target comes back as
/// chunks that, joined with blank lines, are exactly its non-blank paragraphs
/// joined the same way; and no chunk is empty.
pub proof fn lemma_chunk_preserves_paragraphs(text: Seq<char>, target_chars: usize)
    ensures
        all_nonempty(spec_chunk(text, target_chars)),
        text.len() > (if target_chars > 0 { target_chars as int } else { 1 }) ==> join_paragraphs(
            spec_chunk(text, target_chars),
        ) == join_paragraphs(paragraphs(text)),
{
    let t: int = if target_chars > 0 { target_chars as int } else { 1 };
    if text.len() > t {
        let empty = Seq::<Seq<char>>::empty();
        lemma_chunk_paras_join(text, t, empty, Seq::<char>::empty());
        assert(flush_current(empty, Seq::<char>::empty()) + paragraphs(text) == paragraphs(text));
    }
}

/// `c` holds no blank-line separator `\n\n`: at most one paragraph.
pub open spec fn no_blank_line(c: Seq<char>) -> bool {
    forall|j: int| 0 <= j && j + 1 < c.len() ==> !(#[trigger] c[j] == '\n' && c[j + 1] == '\n')
}

/// A chunk fits the target or is a single paragraph.
pub open spec fn fits_or_single(c: Seq<char>, target: int) -> bool {
    c.len() <= target || no_blank_line(c)
}

pub open spec fn all_fit_or_single(cs: Seq<Seq<char>>, target: int) -> bool {
    forall|k: int| 0 <= k < cs.len() ==> fits_or_single(#[trigger] cs[k], target)
}

proof fn lemma_para_take_single(s: Seq<char>)
    ensures
        no_blank_line(s.take(para_index(s) as int)),
    decreases s.len(),
{
    lemma_para_index_bound(s);
    let i = para_index(s) as int;
    if s.len() >= 2 && !(s[0] == '\n' && s[1] == '\n') {
        let t = s.drop_first();
        lemma_para_take_single(t);
        lemma_para_index_bound(t);
        let x = s.take(i);
        let y = t.take(i - 1);
        assert forall|j: int| 0 <= j && j + 1 < x.len() implies !(#[trigger] x[j] == '\n' && x[j + 1] == '\n') by {
            if j > 0 {
                assert(x[j] == y[j - 1] && x[j + 1] == y[j]);
            } else {
                assert(x[0] == s[0] && x[1] == s[1]);
            }
        }
    }
}

proof fn lemma_trim_end_single(s: Seq<char>)
    requires
        no_blank_line(s),
    ensures
        no_blank_line(trim_end(s)),
    decreases s.len(),
{
    if s.len() > 0 && is_whitespace(s.last()) {
        let d = s.drop_last();
        assert forall|j: int| 0 <= j && j + 1 < d.len() implies !(#[trigger] d[j] == '\n' && d[j + 1] == '\n') by {
            assert(d[j] == s[j] && d[j + 1] == s[j + 1]);
        }
        lemma_trim_end_single(d);
    }
}

proof fn lemma_trim_start_single(s: Seq<char>)
    requires
        no_blank_line(s),
    ensures
        no_blank_line(trim_start(s)),
    decreases s.len(),
{
    if s.len() > 0 && is_whitespace(s[0]) {
        let d = s.drop_first();
        assert forall|j: int| 0 <= j && j + 1 < d.len() implies !(#[trigger] d[j] == '\n' && d[j + 1] == '\n') by {
            assert(d[j] == s[j + 1] && d[j + 1] == s[j + 2]);
        }
        lemma_trim_start_single(d);
    }
}

proof fn lemma_chunk_paras_fit(s: Seq<char>, target: int, chunks: Seq<Seq<char>>, current: Seq<char>)
    requires
        all_fit_or_single(chunks, target),
        fits_or_single(current, target),
    ensures
        ({
            let (c, cur) = chunk_paras(s, target, chunks, current);
            all_fit_or_single(c, target) && fits_or_single(cur, target)
        }),
    decreases s.len(),
{
    lemma_para_index_bound(s);
    let i = para_index(s) as int;
    lemma_para_take_single(s);
    lemma_trim_end_single(s.take(i));
    lemma_trim_start_single(trim_end(s.take(i)));
    let (c2, cur2) = chunk_step(chunks, current, s.take(i), target);
    assert(all_fit_or_single(c2, target)) by {
        assert forall|k: int| 0 <= k < c2.len() implies fits_or_single(#[trigger] c2[k], target) by {
            if k < chunks.len() {
                assert(c2[k] == chunks[k]);
            }
        }
    }
    if i < s.len() {
        lemma_chunk_paras_fit(s.skip(i + 2), target, c2, cur2);
    }
}

/// Chunking keeps to the target wherever it can: every chunk either fits the
/// target or is a single paragraph, so a chunk that holds a blank line, and
/// with it two or more paragraphs, never runs past the target.
pub proof fn lemma_chunk_fits_target(text: Seq<char>, target_chars: usize)
    ensures
        all_fit_or_single(spec_chunk(text, target_chars), if target_chars > 0 { target_chars as int } else { 1 }),
{
    let t: int = if target_chars > 0 { target_chars as int } else { 1 };
    if text.len() > t {
        let empty = Seq::<Seq<char>>::empty();
        lemma_chunk_paras_fit(text, t, empty, Seq::<char>::empty());
        let (c, cur) = chunk_paras(text, t, empty, Seq::<char>::empty());
        if cur.len() > 0 {
            assert forall|k: int| 0 <= k < c.push(cur).len() implies fits_or_single(#[trigger] c.push(cur)[k], t) by {
                if k < c.len() {
                    assert(c.push(cur)[k] == c[k]);
                }
            }
        }
    }
}

} // verus!
