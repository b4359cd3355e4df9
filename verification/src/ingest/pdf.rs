//! PDF text: the text a PDF library recovered, a byte-scanning fallback, and
//! the line-level cleanup that removes OCR layout noise (running headers,
//! figure captions, short Latin garbage) before structure parsing.
use vstd::prelude::*;

use crate::error::AppError;
use crate::utils::chars::{
    all_in, all_in_class, append_chars, chars_of, contains, contains_chars, copy_range, count_class,
    count_in, join, join_chars, lemma_count_in_le_len, lemma_deep_view_push, lines, lower,
    lower_chars, remove_class, remove_class_chars, scan_class, scan_to, split_lines, split_words,
    string_of, trim, trim_chars, trim_class, trim_class_chars, utf8_len, utf8_len_at_most, words,
    CharClass,
};

verus! {

// ---------------------------------------------------------------------------
// Line classification
// ---------------------------------------------------------------------------

/// Some full-width sentence punctuation (。！？；：) occurs in the line.
pub open spec fn spec_has_sentence_punctuation(line: Seq<char>) -> bool {
    crate::utils::chars::any_in(line, CharClass::SentencePunctuation)
}

pub fn has_sentence_punctuation(line: &[char]) -> (r: bool)
    ensures
        r == spec_has_sentence_punctuation(line@),
{
    crate::utils::chars::any_in_class(line, CharClass::SentencePunctuation)
}

/// A page-number token: with non-alphanumeric characters trimmed from both
/// ends, one to four bytes of digits and roman-numeral letters.
pub open spec fn spec_is_page_marker_token(token: Seq<char>) -> bool {
    let t = trim_class(token, CharClass::NotAlphanumeric);
    t.len() > 0 && utf8_len(t) <= 4 && all_in(t, CharClass::PageMarker)
}

pub fn is_page_marker_token(token: &[char]) -> (r: bool)
    ensures
        r == spec_is_page_marker_token(token@),
{
    let t = trim_class_chars(token, CharClass::NotAlphanumeric);
    t.len() > 0 && utf8_len_at_most(&t, 4) && all_in_class(&t, CharClass::PageMarker)
}

/// The first word of `line`, or nothing.
pub open spec fn first_word(line: Seq<char>) -> Seq<char> {
    let ws = words(line);
    if ws.len() > 0 {
        ws[0]
    } else {
        seq![]
    }
}

/// The last word of `line`, or nothing.
pub open spec fn last_word(line: Seq<char>) -> Seq<char> {
    let ws = words(line);
    if ws.len() > 0 {
        ws.last()
    } else {
        seq![]
    }
}

/// A running page header: at least four CJK ideographs and at most 32
/// non-whitespace characters, no sentence punctuation, and either a leading
/// page number, a trailing page marker, or the book's running title.
pub open spec fn spec_looks_like_running_header_line(line: Seq<char>) -> bool {
    let compact = remove_class(line, CharClass::Whitespace);
    let cjk = count_in(compact, CharClass::Cjk);
    let digits = count_in(compact, CharClass::AsciiDigit);
    let total = compact.len();
    if cjk < 4 || total > 32 || spec_has_sentence_punctuation(line) {
        false
    } else {
        (digits >= 1 && all_in(first_word(line), CharClass::AsciiDigit))
            || spec_is_page_marker_token(last_word(line)) || contains(line, "殷周之变与华夏新生"@)
    }
}

pub fn looks_like_running_header_line(line: &[char]) -> (r: bool)
    ensures
        r == spec_looks_like_running_header_line(line@),
{
    let compact = remove_class_chars(line, CharClass::Whitespace);
    let cjk = count_class(&compact, CharClass::Cjk);
    let digits = count_class(&compact, CharClass::AsciiDigit);
    let total = compact.len();
    if cjk < 4 || total > 32 || has_sentence_punctuation(line) {
        return false;
    }
    let ws = split_words(line);
    let first = if ws.len() > 0 {
        copy_range(&ws[0], 0, ws[0].len())
    } else {
        Vec::new()
    };
    let last = if ws.len() > 0 {
        copy_range(&ws[ws.len() - 1], 0, ws[ws.len() - 1].len())
    } else {
        Vec::new()
    };
    proof {
        if ws.len() > 0 {
            assert(first@ =~= first_word(line@));
            assert(last@ =~= last_word(line@));
        } else {
            assert(first@ =~= first_word(line@));
            assert(last@ =~= last_word(line@));
        }
    }
    (digits >= 1 && all_in_class(&first, CharClass::AsciiDigit)) || is_page_marker_token(&last)
        || contains_chars(line, &chars_of("殷周之变与华夏新生"))
}

/// OCR layout noise: blank lines; catalogue and web lines (图书在版编目, cip,
/// isbn, www.); figure captions (平面图 示意图 剖面图); the book's garbled
/// running title; running headers; and lines with no CJK that are mostly
/// letters or only digits, or short lines with a digit and at most two CJK
/// ideographs.
pub open spec fn spec_is_layout_noise_line(line: Seq<char>) -> bool {
    let t = trim(line);
    let compact = remove_class(t, CharClass::Whitespace);
    let cjk = count_in(compact, CharClass::Cjk);
    let alpha = count_in(compact, CharClass::AsciiAlphabetic);
    let digits = count_in(compact, CharClass::AsciiDigit);
    let total = compact.len();
    let lowered = lower(t);
    if t.len() == 0 {
        true
    } else if contains(lowered, "图书在版编目"@) || contains(lowered, "cip"@) || contains(
        lowered,
        "isbn"@,
    ) || contains(lowered, "www."@) {
        true
    } else if contains(t, "平面图"@) || contains(t, "示意图"@) || contains(t, "剖面图"@) {
        true
    } else if contains(t, "股周之变与华夏新生"@) {
        true
    } else if spec_looks_like_running_header_line(t) {
        true
    } else if cjk == 0 && alpha >= 3 && alpha * 2 >= total && total <= 24 {
        true
    } else if cjk == 0 && alpha >= 8 && alpha * 2 >= total {
        true
    } else if cjk <= 2 && digits >= 1 && total <= 12 {
        true
    } else {
        total <= 10 && cjk == 0 && digits == total
    }
}

pub fn is_layout_noise_line_chars(line: &[char]) -> (r: bool)
    ensures
        r == spec_is_layout_noise_line(line@),
{
    let t = trim_chars(line);
    if t.len() == 0 {
        return true;
    }
    let compact = remove_class_chars(&t, CharClass::Whitespace);
    let cjk = count_class(&compact, CharClass::Cjk);
    let alpha = count_class(&compact, CharClass::AsciiAlphabetic);
    let digits = count_class(&compact, CharClass::AsciiDigit);
    let total = compact.len();
    proof {
        lemma_count_in_le_len(compact@, CharClass::AsciiAlphabetic);
    }
    let lowered = lower_chars(&t);
    if contains_chars(&lowered, &chars_of("图书在版编目")) || contains_chars(&lowered, &chars_of("cip"))
        || contains_chars(&lowered, &chars_of("isbn")) || contains_chars(&lowered, &chars_of("www.")) {
        return true;
    }
    if contains_chars(&t, &chars_of("平面图")) || contains_chars(&t, &chars_of("示意图"))
        || contains_chars(&t, &chars_of("剖面图")) {
        return true;
    }
    if contains_chars(&t, &chars_of("股周之变与华夏新生")) {
        return true;
    }
    if looks_like_running_header_line(&t) {
        return true;
    }
    if cjk == 0 && alpha >= 3 && alpha as u128 * 2 >= total as u128 && total <= 24 {
        return true;
    }
    if cjk == 0 && alpha >= 8 && alpha as u128 * 2 >= total as u128 {
        return true;
    }
    if cjk <= 2 && digits >= 1 && total <= 12 {
        return true;
    }
    total <= 10 && cjk == 0 && digits == total
}

// ---------------------------------------------------------------------------
// Body-line denoising
// ---------------------------------------------------------------------------

/// Short Latin OCR garbage: with non-alphanumeric characters trimmed from
/// both ends, a token without CJK that is two to six letters, one letter
/// (alone or with one more character), one letter with digits (at most four
/// characters), or letters with digits (at most eight characters).
pub open spec fn spec_is_ascii_noise_token(token: Seq<char>) -> bool {
    let compact = trim_class(token, CharClass::NotAlphanumeric);
    let alpha = count_in(compact, CharClass::AsciiAlphabetic);
    let digits = count_in(compact, CharClass::AsciiDigit);
    let cjk = count_in(compact, CharClass::Cjk);
    let len = compact.len();
    if compact.len() == 0 || cjk > 0 {
        false
    } else if alpha >= 2 && digits == 0 && len <= 6 {
        true
    } else if alpha == 1 && digits == 0 && len <= 2 {
        true
    } else if alpha == 1 && digits >= 1 && len <= 4 {
        true
    } else {
        alpha >= 2 && digits >= 1 && len <= 8
    }
}

pub fn is_ascii_noise_token_chars(token: &[char]) -> (r: bool)
    ensures
        r == spec_is_ascii_noise_token(token@),
{
    let compact = trim_class_chars(token, CharClass::NotAlphanumeric);
    if compact.len() == 0 {
        return false;
    }
    let alpha = count_class(&compact, CharClass::AsciiAlphabetic);
    let digits = count_class(&compact, CharClass::AsciiDigit);
    let cjk = count_class(&compact, CharClass::Cjk);
    if cjk > 0 {
        return false;
    }
    let len = compact.len();
    if alpha >= 2 && digits == 0 && len <= 6 {
        return true;
    }
    if alpha == 1 && digits == 0 && len <= 2 {
        return true;
    }
    if alpha == 1 && digits >= 1 && len <= 4 {
        return true;
    }
    alpha >= 2 && digits >= 1 && len <= 8
}

/// The line from its first CJK ideograph, digit or quotation mark on, trimmed,
/// when that keeps at least four CJK ideographs; else the line unchanged.
pub open spec fn spec_strip_ascii_garbage_prefix(line: Seq<char>) -> Seq<char> {
    let index = scan_to(line, CharClass::BodyStart, 0);
    let trimmed = trim(line.skip(index));
    if count_in(trimmed, CharClass::Cjk) >= 4 {
        trimmed
    } else {
        line
    }
}

pub fn strip_ascii_garbage_prefix_chars(line: &[char]) -> (r: Vec<char>)
    ensures
        r@ == spec_strip_ascii_garbage_prefix(line@),
{
    let index = scan_class(line, CharClass::BodyStart, 0);
    let rest = copy_range(line, index, line.len());
    assert(rest@ =~= line@.skip(index as int));
    let trimmed = trim_chars(&rest);
    if count_class(&trimmed, CharClass::Cjk) >= 4 {
        trimmed
    } else {
        copy_range(line, 0, line.len())
    }
}

/// The words of `ws` that are not ASCII noise tokens.
pub open spec fn non_noise_words(ws: Seq<Seq<char>>) -> Seq<Seq<char>>
    decreases ws.len(),
{
    if ws.len() == 0 {
        ws
    } else if spec_is_ascii_noise_token(ws.last()) {
        non_noise_words(ws.drop_last())
    } else {
        non_noise_words(ws.drop_last()).push(ws.last())
    }
}

/// A Chinese body line (at least four CJK ideographs, some ASCII letters but
/// fewer than twice as many as ideographs) loses its ASCII noise tokens and
/// then its ASCII garbage prefix; any other line is kept unchanged.
pub open spec fn spec_denoise_body_line(line: Seq<char>) -> Seq<char> {
    let cjk = count_in(line, CharClass::Cjk);
    let alpha = count_in(line, CharClass::AsciiAlphabetic);
    if cjk < 4 || alpha == 0 || alpha >= cjk * 2 {
        line
    } else {
        spec_strip_ascii_garbage_prefix(trim(join(non_noise_words(words(line)), seq![' '])))
    }
}

pub fn denoise_body_line_chars(line: &[char]) -> (r: Vec<char>)
    ensures
        r@ == spec_denoise_body_line(line@),
{
    let cjk = count_class(line, CharClass::Cjk);
    let alpha = count_class(line, CharClass::AsciiAlphabetic);
    proof {
        lemma_count_in_le_len(line@, CharClass::Cjk);
    }
    if cjk < 4 || alpha == 0 || alpha as u128 >= cjk as u128 * 2 {
        return copy_range(line, 0, line.len());
    }
    let ws = split_words(line);
    let mut kept: Vec<Vec<char>> = Vec::new();
    let mut i: usize = 0;
    while i < ws.len()
        invariant
            i <= ws.len(),
            kept.deep_view() == non_noise_words(ws.deep_view().take(i as int)),
        decreases ws.len() - i,
    {
        proof {
            assert(ws.deep_view().take(i + 1).drop_last() =~= ws.deep_view().take(i as int));
            assert(ws.deep_view().take(i + 1).last() == ws@[i as int]@);
        }
        if !is_ascii_noise_token_chars(&ws[i]) {
            let w = copy_range(&ws[i], 0, ws[i].len());
            assert(w@ =~= ws@[i as int]@);
            let ghost before = kept;
            kept.push(w);
            proof {
                lemma_deep_view_push(before, kept, w);
            }
        }
        i = i + 1;
    }
    assert(ws.deep_view().take(ws.len() as int) =~= ws.deep_view());
    let joined = join_chars(&kept, &[' ']);
    assert([' ']@ =~= seq![' ']);
    let cleaned = trim_chars(&joined);
    strip_ascii_garbage_prefix_chars(&cleaned)
}

// ---------------------------------------------------------------------------
// Whole-text cleanup
// ---------------------------------------------------------------------------

/// The cleaned lines of `ls`: each line trimmed; blank and layout-noise lines
/// dropped; runs of whitespace collapsed to one space; body lines denoised;
/// lines left empty dropped.
pub open spec fn cleaned_lines(ls: Seq<Seq<char>>) -> Seq<Seq<char>>
    decreases ls.len(),
{
    if ls.len() == 0 {
        seq![]
    } else {
        let rest = cleaned_lines(ls.drop_last());
        let t = trim(ls.last());
        if t.len() == 0 || spec_is_layout_noise_line(t) {
            rest
        } else {
            let d = spec_denoise_body_line(join(words(t), seq![' ']));
            if d.len() == 0 {
                rest
            } else {
                rest.push(d)
            }
        }
    }
}

/// `clean_extracted_text`'s result: the cleaned lines joined with line feeds.
pub open spec fn spec_clean_extracted_text(text: Seq<char>) -> Seq<char> {
    join(cleaned_lines(lines(text)), seq!['\n'])
}

pub fn clean_chars(text: &[char]) -> (r: Vec<char>)
    ensures
        r@ == spec_clean_extracted_text(text@),
{
    let ls = split_lines(text);
    let mut out: Vec<Vec<char>> = Vec::new();
    let mut i: usize = 0;
    while i < ls.len()
        invariant
            i <= ls.len(),
            out.deep_view() == cleaned_lines(ls.deep_view().take(i as int)),
        decreases ls.len() - i,
    {
        proof {
            assert(ls.deep_view().take(i + 1).drop_last() =~= ls.deep_view().take(i as int));
            assert(ls.deep_view().take(i + 1).last() == ls@[i as int]@);
        }
        let t = trim_chars(&ls[i]);
        if t.len() > 0 && !is_layout_noise_line_chars(&t) {
            let collapsed = join_chars(&split_words(&t), &[' ']);
            assert([' ']@ =~= seq![' ']);
            let d = denoise_body_line_chars(&collapsed);
            if d.len() > 0 {
                let ghost before = out;
                out.push(d);
                proof {
                    lemma_deep_view_push(before, out, d);
                }
            }
        }
        i = i + 1;
    }
    assert(ls.deep_view().take(ls.len() as int) =~= ls.deep_view());
    let r = join_chars(&out, &['\n']);
    assert(['\n']@ =~= seq!['\n']);
    r
}

/// Normalizes extracted or OCR text line by line: trims lines, drops blank
/// and layout-noise lines, collapses inner whitespace, strips Latin garbage
/// from Chinese body lines.
pub fn clean_extracted_text(text: &str) -> (r: String)
    ensures
        r@ == spec_clean_extracted_text(text@),
{
    string_of(&clean_chars(&chars_of(text)))
}

// ---------------------------------------------------------------------------
// Readability
// ---------------------------------------------------------------------------

/// Number of PDF syntax markers that occur in `lowered`.
pub open spec fn pdf_marker_hits(lowered: Seq<char>) -> nat {
    (if contains(lowered, "%pdf"@) { 1nat } else { 0nat }) + (if contains(lowered, "endobj"@) {
        1nat
    } else {
        0nat
    }) + (if contains(lowered, "stream"@) { 1nat } else { 0nat }) + (if contains(
        lowered,
        "endstream"@,
    ) {
        1nat
    } else {
        0nat
    }) + (if contains(lowered, "jpxdecode"@) { 1nat } else { 0nat }) + (if contains(
        lowered,
        "flatedecode"@,
    ) {
        1nat
    } else {
        0nat
    }) + (if contains(lowered, "xref"@) { 1nat } else { 0nat }) + (if contains(
        lowered,
        "startxref"@,
    ) {
        1nat
    } else {
        0nat
    })
}

/// Readable text: trimmed, at least 80 bytes, fewer than two PDF syntax
/// markers (case-insensitive), some visible (non-control) characters, and at
/// least 60% of them ASCII letters and digits, whitespace or CJK ideographs.
pub open spec fn spec_is_readable_enough(text: Seq<char>) -> bool {
    let t = trim(text);
    let visible = count_in(t, CharClass::NotControl);
    let readable = count_in(t, CharClass::Readable);
    &&& utf8_len(t) >= 80
    &&& pdf_marker_hits(lower(t)) < 2
    &&& visible > 0
    &&& 5 * readable >= 3 * visible
}

fn hit(lowered: &[char], marker: &str) -> (r: usize)
    ensures
        r == (if contains(lowered@, marker@) { 1nat } else { 0nat }),
{
    if contains_chars(lowered, &chars_of(marker)) {
        1
    } else {
        0
    }
}

pub fn readable_chars(text: &[char]) -> (r: bool)
    ensures
        r == spec_is_readable_enough(text@),
{
    let t = trim_chars(text);
    if utf8_len_at_most(&t, 79) {
        return false;
    }
    let lowered = lower_chars(&t);
    let hits = hit(&lowered, "%pdf") + hit(&lowered, "endobj") + hit(&lowered, "stream") + hit(
        &lowered,
        "endstream",
    ) + hit(&lowered, "jpxdecode") + hit(&lowered, "flatedecode") + hit(&lowered, "xref") + hit(
        &lowered,
        "startxref",
    );
    if hits >= 2 {
        return false;
    }
    let visible = count_class(&t, CharClass::NotControl);
    if visible == 0 {
        return false;
    }
    let readable = count_class(&t, CharClass::Readable);
    5 * (readable as u128) >= 3 * (visible as u128)
}

/// Decides whether text is readable enough to index (see
/// `spec_is_readable_enough`; the 60% share is compared exactly).
pub fn is_readable_enough(text: &str) -> (r: bool)
    ensures
        r == spec_is_readable_enough(text@),
{
    readable_chars(&chars_of(text))
}

// ---------------------------------------------------------------------------
// Raw bytes
// ---------------------------------------------------------------------------

/// The bytes of a file as characters, as far as the decisions below can tell
/// them apart: an ASCII byte is its character, any other byte stands for the
/// replacement character that `String::from_utf8_lossy` puts where the bytes
/// are not ASCII.  Only ASCII characters are ever matched or kept.
pub open spec fn ascii_view(bytes: Seq<u8>) -> Seq<char> {
    bytes.map_values(|b: u8| if b < 0x80 { b as char } else { '\u{FFFD}' })
}

fn ascii_view_chars(bytes: &[u8]) -> (r: Vec<char>)
    ensures
        r@ == ascii_view(bytes@),
{
    let mut r: Vec<char> = Vec::new();
    let mut i: usize = 0;
    while i < bytes.len()
        invariant
            i <= bytes.len(),
            r@ == ascii_view(bytes@.take(i as int)),
        decreases bytes.len() - i,
    {
        let b = bytes[i];
        let c = if b < 0x80 {
            b as char
        } else {
            '\u{FFFD}'
        };
        r.push(c);
        i = i + 1;
        assert(r@ =~= ascii_view(bytes@.take(i as int)));
    }
    assert(bytes@.take(bytes.len() as int) =~= bytes@);
    r
}

/// Image-stream markers of a scanned PDF.
pub open spec fn image_marker_hits(lowered: Seq<char>) -> nat {
    (if contains(lowered, "/subtype/image"@) { 1nat } else { 0nat }) + (if contains(
        lowered,
        "jpxdecode"@,
    ) {
        1nat
    } else {
        0nat
    }) + (if contains(lowered, "dctdecode"@) { 1nat } else { 0nat }) + (if contains(
        lowered,
        "ccittfaxdecode"@,
    ) {
        1nat
    } else {
        0nat
    })
}

/// A PDF that is likely image-only: at least two distinct image-stream markers
/// occur in its bytes, case-insensitively.
pub open spec fn spec_looks_like_image_only_pdf(bytes: Seq<u8>) -> bool {
    image_marker_hits(lower(ascii_view(bytes))) >= 2
}

pub fn looks_like_image_only_pdf(bytes: &[u8]) -> (r: bool)
    ensures
        r == spec_looks_like_image_only_pdf(bytes@),
{
    let lowered = lower_chars(&ascii_view_chars(bytes));
    let hits = hit(&lowered, "/subtype/image") + hit(&lowered, "jpxdecode") + hit(
        &lowered,
        "dctdecode",
    ) + hit(&lowered, "ccittfaxdecode");
    hits >= 2
}

/// The maximal runs of printable ASCII in `s` from index `i` on that are at
/// least four characters long.
pub open spec fn printable_runs_from(s: Seq<char>, i: int) -> Seq<Seq<char>>
    decreases s.len() - i,
{
    if i < 0 || i >= s.len() {
        seq![]
    } else {
        let a = scan_to(s, CharClass::NotPrintableAscii, i);
        proof {
            crate::utils::chars::lemma_scan_to_bounds(s, CharClass::NotPrintableAscii, i);
        }
        let rest = if a >= s.len() {
            seq![]
        } else {
            printable_runs_from(s, a + 1)
        };
        if a - i >= 4 {
            seq![s.subrange(i, a)] + rest
        } else {
            rest
        }
    }
}

/// `s` with every non-overlapping occurrence of `from` (scanning left to
/// right) replaced by `to`, from index `i` on (`str::replace`).
pub open spec fn replace_from(s: Seq<char>, from: Seq<char>, to: Seq<char>, i: int) -> Seq<char>
    decreases s.len() - i,
{
    if i < 0 || i >= s.len() || from.len() == 0 {
        if 0 <= i <= s.len() {
            s.skip(i)
        } else {
            seq![]
        }
    } else if crate::utils::chars::occurs_at(s, from, i) {
        to + replace_from(s, from, to, i + from.len())
    } else {
        seq![s[i]] + replace_from(s, from, to, i + 1)
    }
}

pub open spec fn replace(s: Seq<char>, from: Seq<char>, to: Seq<char>) -> Seq<char> {
    replace_from(s, from, to, 0)
}

pub fn replace_chars(s: &[char], from: &[char], to: &[char]) -> (r: Vec<char>)
    requires
        from@.len() > 0,
    ensures
        r@ == replace(s@, from@, to@),
{
    let mut r: Vec<char> = Vec::new();
    let mut i: usize = 0;
    while i < s.len()
        invariant
            i <= s.len(),
            from@.len() > 0,
            r@ + replace_from(s@, from@, to@, i as int) == replace(s@, from@, to@),
        decreases s.len() - i,
    {
        let ghost before = r@;
        if crate::utils::chars::matches_at(s, from, i) {
            append_chars(&mut r, to);
            assert(before + replace_from(s@, from@, to@, i as int) =~= r@ + replace_from(
                s@,
                from@,
                to@,
                i + from@.len(),
            ));
            i = i + from.len();
        } else {
            r.push(s[i]);
            assert(before + replace_from(s@, from@, to@, i as int) =~= r@ + replace_from(
                s@,
                from@,
                to@,
                i + 1,
            ));
            i = i + 1;
        }
    }
    assert(replace_from(s@, from@, to@, i as int) =~= Seq::<char>::empty());
    assert(r@ + Seq::<char>::empty() =~= r@);
    r
}

/// The byte-scanning fallback: the runs of at least four printable ASCII
/// characters, joined with spaces, with every `(cid:` replaced by a space and
/// every literal backslash-n by a line feed.
pub open spec fn spec_fallback_extract_text(bytes: Seq<u8>) -> Seq<char> {
    let runs = printable_runs_from(ascii_view(bytes), 0);
    replace(replace(join(runs, seq![' ']), "(cid:"@, seq![' ']), seq!['\\', 'n'], seq!['\n'])
}

pub fn fallback_extract_text(bytes: &[u8]) -> (r: String)
    ensures
        r@ == spec_fallback_extract_text(bytes@),
{
    let s = ascii_view_chars(bytes);
    let n = s.len();
    let mut runs: Vec<Vec<char>> = Vec::new();
    let mut i: usize = 0;
    while i < n
        invariant
            n == s.len(),
            i <= n,
            runs.deep_view() + printable_runs_from(s@, i as int) == printable_runs_from(s@, 0),
        decreases n - i,
    {
        let a = scan_class(&s, CharClass::NotPrintableAscii, i);
        let ghost before = runs;
        if a - i >= 4 {
            let run = copy_range(&s, i, a);
            runs.push(run);
            proof {
                lemma_deep_view_push(before, runs, run);
            }
        }
        if a >= n {
            i = n;
        } else {
            i = a + 1;
        }
    }
    assert(printable_runs_from(s@, i as int) =~= Seq::<Seq<char>>::empty());
    assert(runs.deep_view() + Seq::<Seq<char>>::empty() =~= runs.deep_view());
    let joined = join_chars(&runs, &[' ']);
    assert([' ']@ =~= seq![' ']);
    let cid = chars_of("(cid:");
    assert(cid@.len() == 5) by {
        reveal_strlit("(cid:");
    }
    let first = replace_chars(&joined, &cid, &[' ']);
    let second = replace_chars(&first, &['\\', 'n'], &['\n']);
    assert(['\\', 'n']@ =~= seq!['\\', 'n']);
    assert(['\n']@ =~= seq!['\n']);
    string_of(&second)
}

// ---------------------------------------------------------------------------
// Extraction
// ---------------------------------------------------------------------------

/// The outcome of extracting a PDF without OCR.
pub enum Extraction {
    /// Readable text was recovered.
    Text(String),
    /// No readable text, and the file looks image-only: OCR is the next step.
    NeedsOcr,
}

pub open spec fn text_pdf_error_message() -> Seq<char> {
    "pdf extraction produced no readable text; use a text-based PDF or add OCR for scanned documents"@
}

pub open spec fn image_pdf_error_message() -> Seq<char> {
    "pdf extraction produced no readable text; the file looks image-only, and OCR either is unavailable or did not recover enough text. Install `pdftoppm` plus Tesseract with a language pack such as `chi_sim`, or raise `RESEARCH_HARNESS_PDF_OCR_MAX_PAGES` for longer OCR runs."@
}

/// What extraction without OCR decides, given what the PDF library recovered:
/// its cleaned text when readable, else the cleaned byte-scan when readable,
/// else OCR for image-only files, else an ingest error.
pub open spec fn spec_extract_text(bytes: Seq<u8>, extracted: Option<Seq<char>>) -> Result<Option<Seq<char>>, Seq<char>> {
    let fallback = spec_clean_extracted_text(spec_fallback_extract_text(bytes));
    if extracted is Some && spec_is_readable_enough(spec_clean_extracted_text(extracted->0)) {
        Ok(Some(spec_clean_extracted_text(extracted->0)))
    } else if spec_is_readable_enough(fallback) {
        Ok(Some(fallback))
    } else if spec_looks_like_image_only_pdf(bytes) {
        Ok(None)
    } else {
        Err(text_pdf_error_message())
    }
}

/// Decides a PDF's text from its bytes and the text that the PDF library
/// (`pdf_extract::extract_text_from_mem`) recovered from them, `None` when it
/// failed; asks for OCR when the file looks image-only.  The library can
/// panic on malformed files, so the caller runs it and hands its result in.
pub fn extract_text(bytes: &[u8], extracted: Option<String>) -> (r: Result<Extraction, AppError>)
    ensures
        match spec_extract_text(bytes@, match extracted {
            Some(t) => Some(t@),
            None => None,
        }) {
            Ok(Some(t)) => r matches Ok(Extraction::Text(x)) && x@ == t,
            Ok(None) => r matches Ok(Extraction::NeedsOcr),
            Err(m) => r matches Err(AppError::Ingest(e)) && e@ == m,
        },
{
    if let Some(extracted) = extracted {
        let cleaned = clean_chars(&chars_of(extracted.as_str()));
        if readable_chars(&cleaned) {
            return Ok(Extraction::Text(string_of(&cleaned)));
        }
    }
    let fallback = clean_chars(&chars_of(fallback_extract_text(bytes).as_str()));
    if readable_chars(&fallback) {
        return Ok(Extraction::Text(string_of(&fallback)));
    }
    if looks_like_image_only_pdf(bytes) {
        return Ok(Extraction::NeedsOcr);
    }
    Err(AppError::Ingest(
        "pdf extraction produced no readable text; use a text-based PDF or add OCR for scanned documents".to_owned(),
    ))
}

/// After OCR of an image-only PDF: its text when readable, else the error that
/// explains how to get OCR working.
pub fn finish_ocr_extraction(ocr_text: Option<String>) -> (r: Result<String, AppError>)
    ensures
        match ocr_text {
            Some(t) => spec_is_readable_enough(t@) ==> (r matches Ok(x) && x@ == t@),
            None => true,
        },
        (ocr_text is None || !spec_is_readable_enough(ocr_text->0@)) ==> (r matches Err(
            AppError::Ingest(e),
        ) && e@ == image_pdf_error_message()),
{
    if let Some(text) = ocr_text {
        if is_readable_enough(text.as_str()) {
            return Ok(text);
        }
    }
    Err(AppError::Ingest(
        "pdf extraction produced no readable text; the file looks image-only, and OCR either is unavailable or did not recover enough text. Install `pdftoppm` plus Tesseract with a language pack such as `chi_sim`, or raise `RESEARCH_HARNESS_PDF_OCR_MAX_PAGES` for longer OCR runs.".to_owned(),
    ))
}

// ---------------------------------------------------------------------------
// OCR settings
// ---------------------------------------------------------------------------

/// Some line of the listing, trimmed, is `name`.
pub open spec fn lists_language(listing: Seq<char>, name: Seq<char>) -> bool {
    exists|i: int| 0 <= i < lines(listing).len() && #[trigger] trim(lines(listing)[i]) == name
}

/// The Tesseract language argument for the languages that
/// `tesseract --list-langs` printed: Chinese with English when `chi_sim` is
/// installed, else English when `eng` is, else none.
pub open spec fn spec_tesseract_lang(listing: Seq<char>) -> Option<Seq<char>> {
    if lists_language(listing, "chi_sim"@) {
        Some("chi_sim+eng"@)
    } else if lists_language(listing, "eng"@) {
        Some("eng"@)
    } else {
        None
    }
}

fn lists_language_chars(ls: &Vec<Vec<char>>, name: &[char]) -> (r: bool)
    ensures
        r == exists|i: int| 0 <= i < ls.len() && #[trigger] trim(ls@[i]@) == name@,
{
    let mut i: usize = 0;
    while i < ls.len()
        invariant
            i <= ls.len(),
            forall|j: int| 0 <= j < i ==> #[trigger] trim(ls@[j]@) != name@,
        decreases ls.len() - i,
    {
        let t = trim_chars(&ls[i]);
        if crate::utils::chars::eq_chars(&t, name) {
            return true;
        }
        i = i + 1;
    }
    false
}

/// Picks the OCR language from the output of `tesseract --list-langs`.
pub fn tesseract_lang_from_listing(listing: &str) -> (r: Option<String>)
    ensures
        match spec_tesseract_lang(listing@) {
            Some(l) => r matches Some(x) && x@ == l,
            None => r is None,
        },
{
    let ls = split_lines(&chars_of(listing));
    proof {
        assert forall|i: int| 0 <= i < ls.len() implies #[trigger] ls@[i]@ == lines(listing@)[i] by {
            assert(ls.deep_view()[i] == ls@[i]@);
        }
    }
    if lists_language_chars(&ls, &chars_of("chi_sim")) {
        Some("chi_sim+eng".to_owned())
    } else if lists_language_chars(&ls, &chars_of("eng")) {
        Some("eng".to_owned())
    } else {
        None
    }
}

/// The value of a string of decimal digits.
pub open spec fn decimal_value(ds: Seq<char>) -> nat
    decreases ds.len(),
{
    if ds.len() == 0 {
        0
    } else {
        decimal_value(ds.drop_last()) * 10 + ((ds.last() as u32) - ('0' as u32)) as nat
    }
}

/// `str::parse::<usize>`: an optional `+` followed by one or more ASCII
/// digits, whose value fits in `usize`.
pub open spec fn spec_parse_usize(s: Seq<char>) -> Option<nat> {
    let ds = if s.len() > 0 && s[0] == '+' {
        s.drop_first()
    } else {
        s
    };
    if ds.len() > 0 && all_in(ds, CharClass::AsciiDigit) && decimal_value(ds) <= usize::MAX {
        Some(decimal_value(ds))
    } else {
        None
    }
}

proof fn lemma_decimal_value_grows(ds: Seq<char>, i: int)
    requires
        0 <= i <= ds.len(),
        all_in(ds, CharClass::AsciiDigit),
    ensures
        decimal_value(ds.take(i)) <= decimal_value(ds),
    decreases ds.len() - i,
{
    if i < ds.len() {
        lemma_decimal_value_grows(ds, i + 1);
        assert(ds.take(i + 1).drop_last() =~= ds.take(i));
        assert(ds.take(i + 1).last() == ds[i]);
    } else {
        assert(ds.take(i) =~= ds);
    }
}

pub fn parse_usize(s: &[char]) -> (r: Option<usize>)
    ensures
        match spec_parse_usize(s@) {
            Some(n) => r == Some(n as usize),
            None => r is None,
        },
{
    let start: usize = if s.len() > 0 && s[0] == '+' {
        1
    } else {
        0
    };
    let ds = copy_range(s, start, s.len());
    assert(ds@ =~= (if s@.len() > 0 && s@[0] == '+' {
        s@.drop_first()
    } else {
        s@
    }));
    if ds.len() == 0 || !all_in_class(&ds, CharClass::AsciiDigit) {
        return None;
    }
    let mut acc: usize = 0;
    let mut i: usize = 0;
    while i < ds.len()
        invariant
            i <= ds.len(),
            all_in(ds@, CharClass::AsciiDigit),
            acc == decimal_value(ds@.take(i as int)),
            ds@ == (if s@.len() > 0 && s@[0] == '+' {
                s@.drop_first()
            } else {
                s@
            }),
        decreases ds.len() - i,
    {
        assert(ds@.take(i + 1).drop_last() =~= ds@.take(i as int));
        assert(ds@.take(i + 1).last() == ds@[i as int]);
        assert(crate::utils::chars::in_class(ds@[i as int], CharClass::AsciiDigit));
        let d = (ds[i] as u32 - '0' as u32) as usize;
        assert(decimal_value(ds@.take(i + 1)) == acc * 10 + d);
        if acc > (usize::MAX - d) / 10 {
            proof {
                assert(acc * 10 + d > usize::MAX) by (nonlinear_arith)
                    requires
                        acc > (usize::MAX - d) / 10,
                        d <= 9,
                ;
                lemma_decimal_value_grows(ds@, i + 1);
                assert(decimal_value(ds@) > usize::MAX);
                let dd = if s@.len() > 0 && s@[0] == '+' {
                    s@.drop_first()
                } else {
                    s@
                };
                assert(dd == ds@);
                assert(spec_parse_usize(s@) is None);
            }
            return None;
        }
        assert(acc * 10 + d <= usize::MAX) by (nonlinear_arith)
            requires
                acc <= (usize::MAX - d) / 10,
                d <= 9,
        ;
        acc = acc * 10 + d;
        i = i + 1;
    }
    assert(ds@.take(ds.len() as int) =~= ds@);
    Some(acc)
}

/// The OCR page cap for the value of `RESEARCH_HARNESS_PDF_OCR_MAX_PAGES`:
/// the value when it is a positive integer, else 24.
pub open spec fn spec_ocr_max_pages(value: Option<Seq<char>>) -> nat {
    match value {
        Some(v) => match spec_parse_usize(v) {
            Some(n) => if n > 0 {
                n
            } else {
                24
            },
            None => 24,
        },
        None => 24,
    }
}

pub fn ocr_max_pages_from(value: Option<String>) -> (r: usize)
    ensures
        r == spec_ocr_max_pages(match value {
            Some(v) => Some(v@),
            None => None,
        }),
{
    match value {
        Some(v) => match parse_usize(&chars_of(v.as_str())) {
            Some(n) => if n > 0 {
                n
            } else {
                24
            },
            None => 24,
        },
        None => 24,
    }
}


/// Whether a line is page furniture (see `spec_is_layout_noise_line`).
pub fn is_layout_noise_line(line: &str) -> (r: bool)
    ensures
        r == spec_is_layout_noise_line(line@),
{
    is_layout_noise_line_chars(&chars_of(line))
}


/// Whether a token is short OCR garbage (see `spec_is_ascii_noise_token`).
pub fn is_ascii_noise_token(token: &str) -> (r: bool)
    ensures
        r == spec_is_ascii_noise_token(token@),
{
    is_ascii_noise_token_chars(&chars_of(token))
}


/// The line without its leading ASCII garbage (see `spec_strip_ascii_garbage_prefix`).
pub fn strip_ascii_garbage_prefix(line: &str) -> (r: String)
    ensures
        r@ == spec_strip_ascii_garbage_prefix(line@),
{
    string_of(&strip_ascii_garbage_prefix_chars(&chars_of(line)))
}


/// The line without short Latin fragments (see `spec_denoise_body_line`).
pub fn denoise_body_line(line: &str) -> (r: String)
    ensures
        r@ == spec_denoise_body_line(line@),
{
    string_of(&denoise_body_line_chars(&chars_of(line)))
}


// ---------------------------------------------------------------------------
// OCR results
// ---------------------------------------------------------------------------

/// What an OCR result's readability score counts, over its cleaned text
/// (`clean_extracted_text`): CJK ideographs, ASCII letters, ASCII punctuation
/// marks and all characters.  The score itself is floating point and is
/// computed by the caller.
pub struct OcrCounts {
    pub cjk: usize,
    pub ascii_alpha: usize,
    pub punctuation: usize,
    pub length: usize,
}

pub fn ocr_text_counts(text: &str) -> (r: OcrCounts)
    ensures
        ({
            let c = spec_clean_extracted_text(text@);
            &&& r.cjk == count_in(c, CharClass::Cjk)
            &&& r.ascii_alpha == count_in(c, CharClass::AsciiAlphabetic)
            &&& r.punctuation == count_in(c, CharClass::AsciiPunctuation)
            &&& r.length == c.len()
        }),
{
    let c = clean_chars(&chars_of(text));
    OcrCounts {
        cjk: count_class(&c, CharClass::Cjk),
        ascii_alpha: count_class(&c, CharClass::AsciiAlphabetic),
        punctuation: count_class(&c, CharClass::AsciiPunctuation),
        length: c.len(),
    }
}

pub open spec fn opt_chars(o: Option<String>) -> Option<Seq<char>> {
    match o {
        Some(s) => Some(s@),
        None => None,
    }
}

/// The cleaned pages that are not empty after cleaning, in order.
pub open spec fn cleaned_pages(pages: Seq<Seq<char>>) -> Seq<Seq<char>>
    decreases pages.len(),
{
    if pages.len() == 0 {
        seq![]
    } else {
        let rest = cleaned_pages(pages.drop_last());
        let c = spec_clean_extracted_text(pages.last());
        if c.len() == 0 {
            rest
        } else {
            rest.push(c)
        }
    }
}

/// The OCR text of a document from the text of its pages: the cleaned,
/// non-empty pages separated by blank lines, or none when no page has text.
pub open spec fn spec_join_ocr_pages(pages: Seq<Seq<char>>) -> Option<Seq<char>> {
    let c = cleaned_pages(pages);
    if c.len() == 0 {
        None
    } else {
        Some(join(c, "\n\n"@))
    }
}

pub fn join_ocr_pages(pages: &Vec<String>) -> (r: Option<String>)
    ensures
        opt_chars(r) == spec_join_ocr_pages(pages.deep_view()),
{
    let ghost pv = pages.deep_view();
    let mut kept: Vec<Vec<char>> = Vec::new();
    let mut i: usize = 0;
    while i < pages.len()
        invariant
            pv == pages.deep_view(),
            i <= pages.len(),
            kept.deep_view() == cleaned_pages(pv.take(i as int)),
        decreases pages.len() - i,
    {
        proof {
            assert(pv.take(i + 1).drop_last() =~= pv.take(i as int));
            assert(pv.take(i + 1).last() == pages@[i as int]@);
        }
        let c = clean_chars(&chars_of(pages[i].as_str()));
        if c.len() > 0 {
            let ghost old_kept = kept;
            kept.push(c);
            proof {
                lemma_deep_view_push(old_kept, kept, c);
            }
        }
        i = i + 1;
    }
    assert(pv.take(pages.len() as int) =~= pv);
    if kept.len() == 0 {
        None
    } else {
        Some(string_of(&join_chars(&kept, &chars_of("\n\n"))))
    }
}

} // verus!
