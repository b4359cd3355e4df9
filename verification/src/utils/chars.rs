//! Character classes and character-sequence operations shared by the text
//! pipeline: trimming, line splitting, word splitting, substring search,
//! joining and counting.  Every executable function here is proved against a
//! spec function over `Seq<char>`, which the rest of the library states its
//! contracts with.
use vstd::prelude::*;

verus! {

// ---------------------------------------------------------------------------
// Character classes
// ---------------------------------------------------------------------------

/// CJK ideograph blocks (unified ideographs, extensions A to H and the
/// compatibility block) that the tokenizer and the OCR heuristics treat as
/// Chinese text.
pub open spec fn spec_is_cjk(c: char) -> bool {
    let u = c as u32;
    ||| 0x3400 <= u <= 0x4DBF
    ||| 0x4E00 <= u <= 0x9FFF
    ||| 0xF900 <= u <= 0xFAFF
    ||| 0x20000 <= u <= 0x2A6DF
    ||| 0x2A700 <= u <= 0x2B73F
    ||| 0x2B740 <= u <= 0x2B81F
    ||| 0x2B820 <= u <= 0x2CEAF
    ||| 0x2CEB0 <= u <= 0x2EBEF
    ||| 0x30000 <= u <= 0x3134F
}

pub fn is_cjk(c: char) -> (r: bool)
    ensures
        r == spec_is_cjk(c),
{
    let u = c as u32;
    (0x3400 <= u && u <= 0x4DBF) || (0x4E00 <= u && u <= 0x9FFF) || (0xF900 <= u && u <= 0xFAFF)
        || (0x20000 <= u && u <= 0x2A6DF) || (0x2A700 <= u && u <= 0x2B73F) || (0x2B740 <= u
        && u <= 0x2B81F) || (0x2B820 <= u && u <= 0x2CEAF) || (0x2CEB0 <= u && u <= 0x2EBEF)
        || (0x30000 <= u && u <= 0x3134F)
}

/// The Unicode `White_Space` property, which `char::is_whitespace` tests.
pub open spec fn spec_is_whitespace(c: char) -> bool {
    let u = c as u32;
    ||| 0x09 <= u <= 0x0D
    ||| u == 0x20
    ||| u == 0x85
    ||| u == 0xA0
    ||| u == 0x1680
    ||| 0x2000 <= u <= 0x200A
    ||| u == 0x2028
    ||| u == 0x2029
    ||| u == 0x202F
    ||| u == 0x205F
    ||| u == 0x3000
}

pub fn is_whitespace(c: char) -> (r: bool)
    ensures
        r == spec_is_whitespace(c),
{
    let u = c as u32;
    (0x09 <= u && u <= 0x0D) || u == 0x20 || u == 0x85 || u == 0xA0 || u == 0x1680 || (0x2000 <= u
        && u <= 0x200A) || u == 0x2028 || u == 0x2029 || u == 0x202F || u == 0x205F || u == 0x3000
}

pub open spec fn spec_is_ascii_uppercase(c: char) -> bool {
    'A' <= c <= 'Z'
}

pub open spec fn spec_is_ascii_lowercase(c: char) -> bool {
    'a' <= c <= 'z'
}

pub open spec fn spec_is_ascii_alphabetic(c: char) -> bool {
    spec_is_ascii_uppercase(c) || spec_is_ascii_lowercase(c)
}

pub open spec fn spec_is_ascii_digit(c: char) -> bool {
    '0' <= c <= '9'
}

pub open spec fn spec_is_ascii_alphanumeric(c: char) -> bool {
    spec_is_ascii_alphabetic(c) || spec_is_ascii_digit(c)
}

/// `char::is_ascii_whitespace`: space, tab, line feed, form feed, carriage return.
pub open spec fn spec_is_ascii_whitespace(c: char) -> bool {
    c == ' ' || c == '\t' || c == '\n' || c == '\x0C' || c == '\r'
}

/// `char::is_ascii_graphic`: `'!'` to `'~'`.
pub open spec fn spec_is_ascii_graphic(c: char) -> bool {
    '!' <= c <= '~'
}

/// `char::is_ascii_punctuation`: the graphic ASCII characters that are not
/// letters or digits.
pub open spec fn spec_is_ascii_punctuation(c: char) -> bool {
    spec_is_ascii_graphic(c) && !spec_is_ascii_alphanumeric(c)
}

/// `char::is_control`: the general category `Cc`.
pub open spec fn spec_is_control(c: char) -> bool {
    let u = c as u32;
    u <= 0x1F || 0x7F <= u <= 0x9F
}

/// `char::to_ascii_lowercase`.
pub open spec fn spec_lower_char(c: char) -> char {
    if spec_is_ascii_uppercase(c) {
        ((c as u32) + 32) as char
    } else {
        c
    }
}

pub fn lower_char(c: char) -> (r: char)
    ensures
        r == spec_lower_char(c),
{
    if 'A' <= c && c <= 'Z' {
        let u = c as u32 + 32;
        proof {
            assert(0x61 <= u <= 0x7A);
        }
        char_from_ascii_code(u)
    } else {
        c
    }
}

fn char_from_ascii_code(u: u32) -> (c: char)
    requires
        u < 0x80,
    ensures
        c == u as char,
        c as u32 == u,
{
    (u as u8) as char
}

/// Outcome of the standard library's `char::is_alphanumeric`, which follows the
/// Unicode `Alphabetic` and `Numeric` properties.
pub uninterp spec fn spec_unicode_alphanumeric(c: char) -> bool;

/// Calls `char::is_alphanumeric`.  The contract names the result by
/// `spec_unicode_alphanumeric` and states only the ASCII part that the
/// standard library documents: an ASCII character is alphanumeric exactly when
/// it is an ASCII letter or digit.  Which non-ASCII characters the Unicode
/// tables mark alphanumeric is left unsaid.
#[verifier::external_body]
pub(crate) fn is_alphanumeric(c: char) -> (r: bool)
    ensures
        r == spec_unicode_alphanumeric(c),
        (c as u32) < 0x80 ==> (r == spec_is_ascii_alphanumeric(c)),
{
    c.is_alphanumeric()
}

// ---------------------------------------------------------------------------
// Named classes, so that one counting, trimming or scanning routine serves
// every predicate the heuristics need.
// ---------------------------------------------------------------------------

#[derive(Clone, Copy, PartialEq, Eq, Structural)]
pub enum CharClass {
    Whitespace,
    NotWhitespace,
    Cjk,
    AsciiAlphabetic,
    AsciiDigit,
    AsciiAlphanumeric,
    AsciiPunctuation,
    NotControl,
    /// ASCII letters and digits, whitespace, or CJK ideographs.
    Readable,
    /// Characters that `char::is_alphanumeric` rejects.
    NotAlphanumeric,
    Newline,
    Hash,
    /// ASCII digits and whitespace.
    DigitOrWhitespace,
    /// The characters that close a numbered chapter label: 章 节 卷 篇 部.
    HeadingMarker,
    /// ASCII digits and the Chinese numerals 一二三四五六七八九十百千零〇两.
    CjkNumeral,
    /// ASCII capitals, ASCII whitespace, ASCII digits, `.`, `:` and `-`.
    UpperHeading,
    /// Full-width sentence punctuation: 。！？；：
    SentencePunctuation,
    /// ASCII digits and the roman-numeral letters i v x I V X.
    PageMarker,
    /// CJK ideographs, ASCII digits, and the quotation marks “ ” 《 》.
    BodyStart,
    /// Printable ASCII: graphic characters and ASCII whitespace.
    PrintableAscii,
    /// Everything but printable ASCII.
    NotPrintableAscii,
    Dash,
    Slash,
}

pub open spec fn in_class(c: char, k: CharClass) -> bool {
    match k {
        CharClass::Whitespace => spec_is_whitespace(c),
        CharClass::NotWhitespace => !spec_is_whitespace(c),
        CharClass::Cjk => spec_is_cjk(c),
        CharClass::AsciiAlphabetic => spec_is_ascii_alphabetic(c),
        CharClass::AsciiDigit => spec_is_ascii_digit(c),
        CharClass::AsciiAlphanumeric => spec_is_ascii_alphanumeric(c),
        CharClass::AsciiPunctuation => spec_is_ascii_punctuation(c),
        CharClass::NotControl => !spec_is_control(c),
        CharClass::Readable => spec_is_ascii_alphanumeric(c) || spec_is_whitespace(c)
            || spec_is_cjk(c),
        CharClass::NotAlphanumeric => !spec_unicode_alphanumeric(c),
        CharClass::Newline => c == '\n',
        CharClass::Hash => c == '#',
        CharClass::DigitOrWhitespace => spec_is_ascii_digit(c) || spec_is_whitespace(c),
        CharClass::HeadingMarker => c == '章' || c == '节' || c == '卷' || c == '篇' || c == '部',
        CharClass::CjkNumeral => spec_is_ascii_digit(c) || c == '一' || c == '二' || c == '三' || c
            == '四' || c == '五' || c == '六' || c == '七' || c == '八' || c == '九' || c == '十'
            || c == '百' || c == '千' || c == '零' || c == '〇' || c == '两',
        CharClass::UpperHeading => spec_is_ascii_uppercase(c) || spec_is_ascii_whitespace(c)
            || spec_is_ascii_digit(c) || c == '.' || c == ':' || c == '-',
        CharClass::SentencePunctuation => c == '。' || c == '！' || c == '？' || c == '；' || c
            == '：',
        CharClass::PageMarker => spec_is_ascii_digit(c) || c == 'i' || c == 'v' || c == 'x' || c
            == 'I' || c == 'V' || c == 'X',
        CharClass::BodyStart => spec_is_cjk(c) || spec_is_ascii_digit(c) || c == '“' || c == '”'
            || c == '《' || c == '》',
        CharClass::PrintableAscii => spec_is_ascii_graphic(c) || spec_is_ascii_whitespace(c),
        CharClass::NotPrintableAscii => !(spec_is_ascii_graphic(c) || spec_is_ascii_whitespace(c)),
        CharClass::Dash => c == '-',
        CharClass::Slash => c == '/',
    }
}

pub fn char_in_class(c: char, k: CharClass) -> (r: bool)
    ensures
        r == in_class(c, k),
{
    match k {
        CharClass::Whitespace => is_whitespace(c),
        CharClass::NotWhitespace => !is_whitespace(c),
        CharClass::Cjk => is_cjk(c),
        CharClass::AsciiAlphabetic => ('A' <= c && c <= 'Z') || ('a' <= c && c <= 'z'),
        CharClass::AsciiDigit => '0' <= c && c <= '9',
        CharClass::AsciiAlphanumeric => ('A' <= c && c <= 'Z') || ('a' <= c && c <= 'z') || (
        '0' <= c && c <= '9'),
        CharClass::AsciiPunctuation => '!' <= c && c <= '~' && !(('A' <= c && c <= 'Z') || ('a'
            <= c && c <= 'z') || ('0' <= c && c <= '9')),
        CharClass::NotControl => {
            let u = c as u32;
            !(u <= 0x1F || (0x7F <= u && u <= 0x9F))
        },
        CharClass::Readable => ('A' <= c && c <= 'Z') || ('a' <= c && c <= 'z') || ('0' <= c && c
            <= '9') || is_whitespace(c) || is_cjk(c),
        CharClass::NotAlphanumeric => !is_alphanumeric(c),
        CharClass::Newline => c == '\n',
        CharClass::Hash => c == '#',
        CharClass::DigitOrWhitespace => ('0' <= c && c <= '9') || is_whitespace(c),
        CharClass::HeadingMarker => c == '章' || c == '节' || c == '卷' || c == '篇' || c == '部',
        CharClass::CjkNumeral => ('0' <= c && c <= '9') || c == '一' || c == '二' || c == '三' || c
            == '四' || c == '五' || c == '六' || c == '七' || c == '八' || c == '九' || c == '十'
            || c == '百' || c == '千' || c == '零' || c == '〇' || c == '两',
        CharClass::UpperHeading => ('A' <= c && c <= 'Z') || c == ' ' || c == '\t' || c == '\n'
            || c == '\x0C' || c == '\r' || ('0' <= c && c <= '9') || c == '.' || c == ':' || c
            == '-',
        CharClass::SentencePunctuation => c == '。' || c == '！' || c == '？' || c == '；' || c
            == '：',
        CharClass::PageMarker => ('0' <= c && c <= '9') || c == 'i' || c == 'v' || c == 'x' || c
            == 'I' || c == 'V' || c == 'X',
        CharClass::BodyStart => is_cjk(c) || ('0' <= c && c <= '9') || c == '“' || c == '”' || c
            == '《' || c == '》',
        CharClass::PrintableAscii => ('!' <= c && c <= '~') || c == ' ' || c == '\t' || c == '\n'
            || c == '\x0C' || c == '\r',
        CharClass::NotPrintableAscii => !(('!' <= c && c <= '~') || c == ' ' || c == '\t' || c
            == '\n' || c == '\x0C' || c == '\r'),
        CharClass::Dash => c == '-',
        CharClass::Slash => c == '/',
    }
}

// ---------------------------------------------------------------------------
// Counting
// ---------------------------------------------------------------------------

/// Number of characters of `s` in class `k`.
pub open spec fn count_in(s: Seq<char>, k: CharClass) -> nat
    decreases s.len(),
{
    if s.len() == 0 {
        0
    } else {
        count_in(s.drop_last(), k) + if in_class(s.last(), k) {
            1nat
        } else {
            0nat
        }
    }
}

pub proof fn lemma_count_in_le_len(s: Seq<char>, k: CharClass)
    ensures
        count_in(s, k) <= s.len(),
    decreases s.len(),
{
    if s.len() > 0 {
        lemma_count_in_le_len(s.drop_last(), k);
    }
}

pub fn count_class(s: &[char], k: CharClass) -> (n: usize)
    ensures
        n == count_in(s@, k),
{
    let mut n: usize = 0;
    let mut i: usize = 0;
    while i < s.len()
        invariant
            i <= s.len(),
            n == count_in(s@.take(i as int), k),
            n <= i,
        decreases s.len() - i,
    {
        assert(s@.take(i + 1).drop_last() =~= s@.take(i as int));
        if char_in_class(s[i], k) {
            n = n + 1;
        }
        i = i + 1;
    }
    assert(s@.take(s.len() as int) =~= s@);
    n
}

/// Every character of `s` is in class `k`.
pub open spec fn all_in(s: Seq<char>, k: CharClass) -> bool {
    forall|i: int| 0 <= i < s.len() ==> in_class(#[trigger] s[i], k)
}

pub fn all_in_class(s: &[char], k: CharClass) -> (r: bool)
    ensures
        r == all_in(s@, k),
{
    let mut i: usize = 0;
    while i < s.len()
        invariant
            i <= s.len(),
            forall|j: int| 0 <= j < i ==> in_class(#[trigger] s@[j], k),
        decreases s.len() - i,
    {
        if !char_in_class(s[i], k) {
            return false;
        }
        i = i + 1;
    }
    true
}

/// Some character of `s` is in class `k`.
pub open spec fn any_in(s: Seq<char>, k: CharClass) -> bool {
    exists|i: int| 0 <= i < s.len() && in_class(#[trigger] s[i], k)
}

pub fn any_in_class(s: &[char], k: CharClass) -> (r: bool)
    ensures
        r == any_in(s@, k),
{
    let mut i: usize = 0;
    while i < s.len()
        invariant
            i <= s.len(),
            forall|j: int| 0 <= j < i ==> !in_class(#[trigger] s@[j], k),
        decreases s.len() - i,
    {
        if char_in_class(s[i], k) {
            return true;
        }
        i = i + 1;
    }
    false
}

// ---------------------------------------------------------------------------
// Scanning
// ---------------------------------------------------------------------------

/// The first index at or after `i` whose character is in class `k`, or the
/// length of `s` when there is none.
pub open spec fn scan_to(s: Seq<char>, k: CharClass, i: int) -> int
    decreases s.len() - i,
{
    if i >= s.len() {
        s.len() as int
    } else if in_class(s[i], k) {
        i
    } else {
        scan_to(s, k, i + 1)
    }
}

pub proof fn lemma_scan_to_bounds(s: Seq<char>, k: CharClass, i: int)
    requires
        0 <= i <= s.len(),
    ensures
        i <= scan_to(s, k, i) <= s.len(),
        scan_to(s, k, i) < s.len() ==> in_class(s[scan_to(s, k, i)], k),
        forall|j: int| i <= j < scan_to(s, k, i) ==> !in_class(#[trigger] s[j], k),
    decreases s.len() - i,
{
    if i < s.len() && !in_class(s[i], k) {
        lemma_scan_to_bounds(s, k, i + 1);
    }
}

/// `scan_to` is characterized by the position it stops at.
pub proof fn lemma_scan_to_unique(s: Seq<char>, k: CharClass, i: int, j: int)
    requires
        0 <= i <= j <= s.len(),
        forall|m: int| i <= m < j ==> !in_class(#[trigger] s[m], k),
        j == s.len() || in_class(s[j], k),
    ensures
        scan_to(s, k, i) == j,
    decreases j - i,
{
    if i < j {
        lemma_scan_to_unique(s, k, i + 1, j);
    }
}

pub fn scan_class(s: &[char], k: CharClass, i: usize) -> (j: usize)
    requires
        i <= s.len(),
    ensures
        j == scan_to(s@, k, i as int),
        i <= j <= s.len(),
{
    let mut j = i;
    while j < s.len() && !char_in_class(s[j], k)
        invariant
            i <= j <= s.len(),
            forall|m: int| i <= m < j ==> !in_class(#[trigger] s@[m], k),
        decreases s.len() - j,
    {
        j = j + 1;
    }
    proof {
        lemma_scan_to_unique(s@, k, i as int, j as int);
    }
    j
}

/// Index of the first character of `s` that is not in class `k`.
pub open spec fn lead_len(s: Seq<char>, k: CharClass) -> nat
    decreases s.len(),
{
    if s.len() > 0 && in_class(s[0], k) {
        1 + lead_len(s.drop_first(), k)
    } else {
        0
    }
}

/// Length of the longest suffix of `s` all in class `k`.
pub open spec fn trail_len(s: Seq<char>, k: CharClass) -> nat
    decreases s.len(),
{
    if s.len() > 0 && in_class(s.last(), k) {
        1 + trail_len(s.drop_last(), k)
    } else {
        0
    }
}

pub proof fn lemma_lead_len(s: Seq<char>, k: CharClass)
    ensures
        lead_len(s, k) <= s.len(),
        forall|j: int| 0 <= j < lead_len(s, k) ==> in_class(#[trigger] s[j], k),
        lead_len(s, k) < s.len() ==> !in_class(s[lead_len(s, k) as int], k),
    decreases s.len(),
{
    if s.len() > 0 && in_class(s[0], k) {
        lemma_lead_len(s.drop_first(), k);
        assert forall|j: int| 0 <= j < lead_len(s, k) implies in_class(#[trigger] s[j], k) by {
            if j > 0 {
                assert(s[j] == s.drop_first()[j - 1]);
            }
        }
    }
}

pub proof fn lemma_lead_len_unique(s: Seq<char>, k: CharClass, n: int)
    requires
        0 <= n <= s.len(),
        forall|j: int| 0 <= j < n ==> in_class(#[trigger] s[j], k),
        n == s.len() || !in_class(s[n], k),
    ensures
        lead_len(s, k) == n,
    decreases n,
{
    if n > 0 {
        assert forall|j: int| 0 <= j < n - 1 implies in_class(#[trigger] s.drop_first()[j], k) by {
            assert(s.drop_first()[j] == s[j + 1]);
        }
        if n - 1 < s.drop_first().len() {
            assert(s.drop_first()[n - 1] == s[n]);
        }
        lemma_lead_len_unique(s.drop_first(), k, n - 1);
    }
}

pub proof fn lemma_trail_len(s: Seq<char>, k: CharClass)
    ensures
        trail_len(s, k) <= s.len(),
        forall|j: int| s.len() - trail_len(s, k) <= j < s.len() ==> in_class(#[trigger] s[j], k),
        trail_len(s, k) < s.len() ==> !in_class(s[s.len() - trail_len(s, k) - 1], k),
    decreases s.len(),
{
    if s.len() > 0 && in_class(s.last(), k) {
        lemma_trail_len(s.drop_last(), k);
        assert forall|j: int|
            s.len() - trail_len(s, k) <= j < s.len() implies in_class(#[trigger] s[j], k) by {
            if j < s.len() - 1 {
                assert(s[j] == s.drop_last()[j]);
            }
        }
    }
}

pub proof fn lemma_trail_len_unique(s: Seq<char>, k: CharClass, n: int)
    requires
        0 <= n <= s.len(),
        forall|j: int| s.len() - n <= j < s.len() ==> in_class(#[trigger] s[j], k),
        n == s.len() || !in_class(s[s.len() - n - 1], k),
    ensures
        trail_len(s, k) == n,
    decreases n,
{
    if n > 0 {
        let t = s.drop_last();
        assert forall|j: int| t.len() - (n - 1) <= j < t.len() implies in_class(#[trigger] t[j], k) by {
            assert(t[j] == s[j]);
        }
        if n - 1 < t.len() {
            assert(t[t.len() - (n - 1) - 1] == s[s.len() - n - 1]);
        }
        lemma_trail_len_unique(t, k, n - 1);
    }
}

/// `s` with the characters of class `k` removed from both ends
/// (`str::trim_matches`; with `Whitespace` it is `str::trim`).
pub open spec fn trim_class(s: Seq<char>, k: CharClass) -> Seq<char> {
    let a = s.skip(lead_len(s, k) as int);
    a.take(a.len() - trail_len(a, k))
}

/// `str::trim`.
pub open spec fn trim(s: Seq<char>) -> Seq<char> {
    trim_class(s, CharClass::Whitespace)
}

/// Start and end of `trim_class(s, k)` inside `s`.
pub fn trim_bounds(s: &[char], k: CharClass) -> (r: (usize, usize))
    ensures
        r.0 <= r.1 <= s.len(),
        s@.subrange(r.0 as int, r.1 as int) == trim_class(s@, k),
{
    let n = s.len();
    let mut a: usize = 0;
    while a < n && char_in_class(s[a], k)
        invariant
            a <= n == s.len(),
            forall|j: int| 0 <= j < a ==> in_class(#[trigger] s@[j], k),
        decreases n - a,
    {
        a = a + 1;
    }
    proof {
        lemma_lead_len_unique(s@, k, a as int);
    }
    let mut b: usize = n;
    while b > a && char_in_class(s[b - 1], k)
        invariant
            a <= b <= n == s.len(),
            forall|j: int| b <= j < n ==> in_class(#[trigger] s@[j], k),
        decreases b,
    {
        b = b - 1;
    }
    proof {
        let t = s@.skip(a as int);
        assert forall|j: int| t.len() - (n - b) <= j < t.len() implies in_class(#[trigger] t[j], k) by {
            assert(t[j] == s@[j + a]);
        }
        if b > a {
            assert(t[t.len() - (n - b) - 1] == s@[b - 1]);
        }
        lemma_trail_len_unique(t, k, (n - b) as int);
        assert(s@.subrange(a as int, b as int) =~= t.take(t.len() - (n - b)));
    }
    (a, b)
}

/// A copy of `s[a..b]`.
pub fn copy_range(s: &[char], a: usize, b: usize) -> (r: Vec<char>)
    requires
        a <= b <= s.len(),
    ensures
        r@ == s@.subrange(a as int, b as int),
{
    let mut r: Vec<char> = Vec::new();
    let mut i = a;
    while i < b
        invariant
            a <= i <= b <= s.len(),
            r@ == s@.subrange(a as int, i as int),
        decreases b - i,
    {
        r.push(s[i]);
        i = i + 1;
        assert(r@ =~= s@.subrange(a as int, i as int));
    }
    r
}

pub fn trim_chars(s: &[char]) -> (r: Vec<char>)
    ensures
        r@ == trim(s@),
{
    let (a, b) = trim_bounds(s, CharClass::Whitespace);
    copy_range(s, a, b)
}

pub fn trim_class_chars(s: &[char], k: CharClass) -> (r: Vec<char>)
    ensures
        r@ == trim_class(s@, k),
{
    let (a, b) = trim_bounds(s, k);
    copy_range(s, a, b)
}

/// The characters of `s` outside class `k`, in order.
pub open spec fn remove_class(s: Seq<char>, k: CharClass) -> Seq<char>
    decreases s.len(),
{
    if s.len() == 0 {
        s
    } else if in_class(s.last(), k) {
        remove_class(s.drop_last(), k)
    } else {
        remove_class(s.drop_last(), k).push(s.last())
    }
}

pub fn remove_class_chars(s: &[char], k: CharClass) -> (r: Vec<char>)
    ensures
        r@ == remove_class(s@, k),
{
    let mut r: Vec<char> = Vec::new();
    let mut i: usize = 0;
    while i < s.len()
        invariant
            i <= s.len(),
            r@ == remove_class(s@.take(i as int), k),
        decreases s.len() - i,
    {
        assert(s@.take(i + 1).drop_last() =~= s@.take(i as int));
        if !char_in_class(s[i], k) {
            r.push(s[i]);
        }
        i = i + 1;
    }
    assert(s@.take(s.len() as int) =~= s@);
    r
}

/// Pushing onto a vector of character vectors pushes the pushed vector's view.
pub proof fn lemma_deep_view_push(before: Vec<Vec<char>>, after: Vec<Vec<char>>, x: Vec<char>)
    requires
        after@ == before@.push(x),
    ensures
        after.deep_view() == before.deep_view().push(x@),
{
    assert(x.deep_view() =~= x@);
    assert(after.deep_view() =~= before.deep_view().push(x@));
}

// ---------------------------------------------------------------------------
// Lines (`str::lines`)
// ---------------------------------------------------------------------------

/// A line as `str::lines` yields it: the text up to a line feed, with one
/// carriage return removed if it stood just before that line feed.
pub open spec fn strip_cr(line: Seq<char>) -> Seq<char> {
    if line.len() > 0 && line.last() == '\r' {
        line.drop_last()
    } else {
        line
    }
}

/// The lines of `s` from index `i` on.
pub open spec fn lines_from(s: Seq<char>, i: int) -> Seq<Seq<char>>
    decreases s.len() - i,
{
    if i < 0 || i >= s.len() {
        seq![]
    } else {
        let j = scan_to(s, CharClass::Newline, i);
        proof {
            lemma_scan_to_bounds(s, CharClass::Newline, i);
        }
        if j >= s.len() {
            seq![s.subrange(i, j)]
        } else {
            seq![strip_cr(s.subrange(i, j))] + lines_from(s, j + 1)
        }
    }
}

/// `str::lines`: `s` split at line feeds, `\r\n` counting as one line ending,
/// with no empty line after a final line ending.
pub open spec fn lines(s: Seq<char>) -> Seq<Seq<char>> {
    lines_from(s, 0)
}

pub fn split_lines(s: &[char]) -> (r: Vec<Vec<char>>)
    ensures
        r.deep_view() == lines(s@),
{
    let n = s.len();
    let mut r: Vec<Vec<char>> = Vec::new();
    let mut i: usize = 0;
    while i < n
        invariant
            n == s.len(),
            i <= n,
            r.deep_view() + lines_from(s@, i as int) == lines(s@),
        decreases n - i,
    {
        let j = scan_class(s, CharClass::Newline, i);
        proof {
            lemma_scan_to_bounds(s@, CharClass::Newline, i as int);
        }
        let ghost old_v = r;
        let ghost old_r = r.deep_view();
        if j >= n {
            let line = copy_range(s, i, j);
            r.push(line);
            proof {
                lemma_deep_view_push(old_v, r, line);
            }
            assert(r.deep_view() =~= old_r + seq![s@.subrange(i as int, j as int)]);
            assert(lines_from(s@, j as int) =~= Seq::<Seq<char>>::empty());
            i = j;
        } else {
            let end = if j > i && s[j - 1] == '\r' {
                j - 1
            } else {
                j
            };
            let line = copy_range(s, i, end);
            assert(line@ == strip_cr(s@.subrange(i as int, j as int))) by {
                if j > i && s@[j - 1] == '\r' {
                    assert(s@.subrange(i as int, j as int).drop_last() =~= s@.subrange(
                        i as int,
                        j - 1,
                    ));
                }
            }
            r.push(line);
            proof {
                lemma_deep_view_push(old_v, r, line);
            }
            assert(r.deep_view() =~= old_r + seq![strip_cr(s@.subrange(i as int, j as int))]);
            i = j + 1;
        }
    }
    assert(lines_from(s@, i as int) =~= Seq::<Seq<char>>::empty());
    assert(r.deep_view() + Seq::<Seq<char>>::empty() =~= r.deep_view());
    r
}

// ---------------------------------------------------------------------------
// Words (`str::split_whitespace`)
// ---------------------------------------------------------------------------

/// The maximal runs of non-whitespace characters of `s` from index `i` on.
pub open spec fn words_from(s: Seq<char>, i: int) -> Seq<Seq<char>>
    decreases s.len() - i,
{
    if i < 0 || i >= s.len() {
        seq![]
    } else {
        let a = scan_to(s, CharClass::NotWhitespace, i);
        proof {
            lemma_scan_to_bounds(s, CharClass::NotWhitespace, i);
        }
        if a >= s.len() {
            seq![]
        } else {
            let b = scan_to(s, CharClass::Whitespace, a);
            proof {
                lemma_scan_to_bounds(s, CharClass::Whitespace, a);
            }
            seq![s.subrange(a, b)] + words_from(s, b)
        }
    }
}

/// `str::split_whitespace`.
pub open spec fn words(s: Seq<char>) -> Seq<Seq<char>> {
    words_from(s, 0)
}

pub fn split_words(s: &[char]) -> (r: Vec<Vec<char>>)
    ensures
        r.deep_view() == words(s@),
{
    let n = s.len();
    let mut r: Vec<Vec<char>> = Vec::new();
    let mut i: usize = 0;
    while i < n
        invariant
            n == s.len(),
            i <= n,
            r.deep_view() + words_from(s@, i as int) == words(s@),
        decreases n - i,
    {
        let a = scan_class(s, CharClass::NotWhitespace, i);
        let ghost old_v = r;
        let ghost old_r = r.deep_view();
        if a >= n {
            i = n;
        } else {
            proof {
                lemma_scan_to_bounds(s@, CharClass::NotWhitespace, i as int);
            }
            let b = scan_class(s, CharClass::Whitespace, a);
            proof {
                lemma_scan_to_bounds(s@, CharClass::Whitespace, a as int);
            }
            let w = copy_range(s, a, b);
            r.push(w);
            proof {
                lemma_deep_view_push(old_v, r, w);
            }
            assert(r.deep_view() =~= old_r + seq![s@.subrange(a as int, b as int)]);
            i = b;
        }
    }
    assert(words_from(s@, i as int) =~= Seq::<Seq<char>>::empty());
    assert(r.deep_view() + Seq::<Seq<char>>::empty() =~= r.deep_view());
    r
}

// ---------------------------------------------------------------------------
// Joining
// ---------------------------------------------------------------------------

/// The parts joined with `sep` between neighbours (`[T]::join`).
pub open spec fn join(parts: Seq<Seq<char>>, sep: Seq<char>) -> Seq<char>
    decreases parts.len(),
{
    if parts.len() == 0 {
        seq![]
    } else if parts.len() == 1 {
        parts[0]
    } else {
        join(parts.drop_last(), sep) + sep + parts.last()
    }
}

pub fn join_chars(parts: &Vec<Vec<char>>, sep: &[char]) -> (r: Vec<char>)
    ensures
        r@ == join(parts.deep_view(), sep@),
{
    let mut r: Vec<char> = Vec::new();
    let mut i: usize = 0;
    while i < parts.len()
        invariant
            i <= parts.len(),
            r@ == join(parts.deep_view().take(i as int), sep@),
        decreases parts.len() - i,
    {
        let ghost before = r@;
        if i > 0 {
            append_chars(&mut r, sep);
        }
        append_chars(&mut r, &parts[i]);
        proof {
            let p = parts.deep_view();
            assert(p.take(i + 1).drop_last() =~= p.take(i as int));
            assert(p.take(i + 1).last() == parts[i as int]@);
            if i == 0 {
                assert(r@ =~= p.take(1)[0]);
            } else {
                assert(r@ =~= before + sep@ + parts[i as int]@);
            }
        }
        i = i + 1;
    }
    assert(parts.deep_view().take(parts.len() as int) =~= parts.deep_view());
    r
}

pub fn append_chars(r: &mut Vec<char>, s: &[char])
    ensures
        final(r)@ == old(r)@ + s@,
{
    let mut i: usize = 0;
    while i < s.len()
        invariant
            i <= s.len(),
            r@ == old(r)@ + s@.take(i as int),
        decreases s.len() - i,
    {
        r.push(s[i]);
        i = i + 1;
        assert(r@ =~= old(r)@ + s@.take(i as int));
    }
    assert(s@.take(s.len() as int) =~= s@);
}

// ---------------------------------------------------------------------------
// Substrings
// ---------------------------------------------------------------------------

pub open spec fn occurs_at(s: Seq<char>, pat: Seq<char>, i: int) -> bool {
    0 <= i && i + pat.len() <= s.len() && s.subrange(i, i + pat.len()) == pat
}

/// `str::contains` with a string pattern.
pub open spec fn contains(s: Seq<char>, pat: Seq<char>) -> bool {
    exists|i: int| #[trigger] occurs_at(s, pat, i)
}

/// `str::starts_with` with a string pattern.
pub open spec fn starts_with(s: Seq<char>, pat: Seq<char>) -> bool {
    occurs_at(s, pat, 0)
}

pub fn matches_at(s: &[char], pat: &[char], i: usize) -> (r: bool)
    ensures
        r == occurs_at(s@, pat@, i as int),
{
    if i > s.len() || pat.len() > s.len() - i {
        return false;
    }
    let mut k: usize = 0;
    while k < pat.len()
        invariant
            i + pat.len() <= s.len(),
            k <= pat.len(),
            forall|m: int| 0 <= m < k ==> s@[i + m] == pat@[m],
        decreases pat.len() - k,
    {
        if s[i + k] != pat[k] {
            assert(s@.subrange(i as int, i + pat.len())[k as int] != pat@[k as int]);
            return false;
        }
        k = k + 1;
    }
    assert(s@.subrange(i as int, i + pat.len()) =~= pat@);
    true
}

pub fn contains_chars(s: &[char], pat: &[char]) -> (r: bool)
    ensures
        r == contains(s@, pat@),
{
    if pat.len() > s.len() {
        assert forall|i: int| !occurs_at(s@, pat@, i) by {}
        return false;
    }
    let last = s.len() - pat.len();
    let mut i: usize = 0;
    loop
        invariant
            last == s.len() - pat.len(),
            i <= last,
            forall|m: int| 0 <= m < i ==> !#[trigger] occurs_at(s@, pat@, m),
        decreases last - i,
    {
        if matches_at(s, pat, i) {
            return true;
        }
        if i == last {
            assert forall|m: int| !#[trigger] occurs_at(s@, pat@, m) by {
                if 0 <= m <= i {
                }
            }
            return false;
        }
        i = i + 1;
    }
}

pub fn starts_with_chars(s: &[char], pat: &[char]) -> (r: bool)
    ensures
        r == starts_with(s@, pat@),
{
    matches_at(s, pat, 0)
}

pub fn eq_chars(a: &[char], b: &[char]) -> (r: bool)
    ensures
        r == (a@ == b@),
{
    if a.len() != b.len() {
        return false;
    }
    assert(a@.subrange(0, b@.len() as int) =~= a@);
    matches_at(a, b, 0)
}

// ---------------------------------------------------------------------------
// Case mapping and byte length
// ---------------------------------------------------------------------------

/// `str::to_ascii_lowercase`.
pub open spec fn lower(s: Seq<char>) -> Seq<char> {
    s.map_values(|c: char| spec_lower_char(c))
}

pub fn lower_chars(s: &[char]) -> (r: Vec<char>)
    ensures
        r@ == lower(s@),
{
    let mut r: Vec<char> = Vec::new();
    let mut i: usize = 0;
    while i < s.len()
        invariant
            i <= s.len(),
            r@ == lower(s@.take(i as int)),
        decreases s.len() - i,
    {
        r.push(lower_char(s[i]));
        i = i + 1;
        assert(r@ =~= lower(s@.take(i as int)));
    }
    assert(s@.take(s.len() as int) =~= s@);
    r
}

/// Number of bytes that `c` takes in UTF-8.
pub open spec fn utf8_width(c: char) -> nat {
    let u = c as u32;
    if u < 0x80 {
        1
    } else if u < 0x800 {
        2
    } else if u < 0x10000 {
        3
    } else {
        4
    }
}

/// Number of bytes of `s` in UTF-8 (`str::len`).
pub open spec fn utf8_len(s: Seq<char>) -> nat
    decreases s.len(),
{
    if s.len() == 0 {
        0
    } else {
        utf8_len(s.drop_last()) + utf8_width(s.last())
    }
}

pub proof fn lemma_utf8_len_bounds(s: Seq<char>)
    ensures
        s.len() <= utf8_len(s) <= 4 * s.len(),
    decreases s.len(),
{
    if s.len() > 0 {
        lemma_utf8_len_bounds(s.drop_last());
    }
}

proof fn lemma_utf8_len_front(s: Seq<char>)
    requires
        s.len() > 0,
    ensures
        utf8_len(s) == utf8_width(s[0]) + utf8_len(s.drop_first()),
    decreases s.len(),
{
    if s.len() > 1 {
        lemma_utf8_len_front(s.drop_last());
        assert(s.drop_last().drop_first() =~= s.drop_first().drop_last());
        assert(s.drop_last()[0] == s[0]);
    } else {
        assert(s.drop_last() =~= Seq::<char>::empty());
        assert(s.drop_first() =~= Seq::<char>::empty());
    }
}

/// `utf8_len` is the length of the UTF-8 encoding, as `str::len` gives it.
pub proof fn lemma_utf8_len_is_byte_length(s: Seq<char>)
    ensures
        utf8_len(s) == vstd::utf8::encode_utf8(s).len(),
    decreases s.len(),
{
    if s.len() > 0 {
        lemma_utf8_len_front(s);
        lemma_utf8_len_is_byte_length(s.drop_first());
        let c = s[0];
        vstd::utf8::char_is_scalar(c);
        assert(vstd::utf8::encode_scalar(c as u32).len() == utf8_width(c));
    }
}

/// Whether `utf8_len(s) <= limit`, computed without overflow.
pub fn utf8_len_at_most(s: &[char], limit: usize) -> (r: bool)
    ensures
        r == (utf8_len(s@) <= limit),
{
    let mut total: usize = 0;
    let mut i: usize = 0;
    while i < s.len()
        invariant
            i <= s.len(),
            total == utf8_len(s@.take(i as int)),
            total <= limit,
        decreases s.len() - i,
    {
        assert(s@.take(i + 1).drop_last() =~= s@.take(i as int));
        let u = s[i] as u32;
        let w: usize = if u < 0x80 {
            1
        } else if u < 0x800 {
            2
        } else if u < 0x10000 {
            3
        } else {
            4
        };
        if w > limit - total {
            proof {
                lemma_utf8_prefix_monotone(s@, i + 1);
            }
            return false;
        }
        total = total + w;
        i = i + 1;
    }
    assert(s@.take(s.len() as int) =~= s@);
    true
}

pub proof fn lemma_utf8_prefix_monotone(s: Seq<char>, i: int)
    requires
        0 <= i <= s.len(),
    ensures
        utf8_len(s.take(i)) <= utf8_len(s),
    decreases s.len() - i,
{
    if i < s.len() {
        lemma_utf8_prefix_monotone(s, i + 1);
        assert(s.take(i + 1).drop_last() =~= s.take(i));
    } else {
        assert(s.take(i) =~= s);
    }
}

// ---------------------------------------------------------------------------
// Conversions between `str`/`String` and character vectors
// ---------------------------------------------------------------------------

pub fn chars_of(s: &str) -> (v: Vec<char>)
    ensures
        v@ == s@,
{
    broadcast use vstd::string::group_string_axioms;

    let mut v: Vec<char> = Vec::new();
    for c in it: s.chars()
        invariant
            v@ == it.seq().take(it.index() as int),
            it.seq() == s@,
    {
        v.push(c);
    }
    v
}

/// Calls `String::push`.  The contract is the documented one: the character is
/// appended at the end.
#[verifier::external_body]
pub(crate) fn push_char(s: &mut String, c: char)
    ensures
        final(s)@ == old(s)@.push(c),
{
    s.push(c);
}

pub fn string_of(v: &[char]) -> (s: String)
    ensures
        s@ == v@,
{
    let mut s = String::new();
    let mut i: usize = 0;
    while i < v.len()
        invariant
            i <= v.len(),
            s@ == v@.take(i as int),
        decreases v.len() - i,
    {
        push_char(&mut s, v[i]);
        i = i + 1;
        assert(s@ =~= v@.take(i as int));
    }
    assert(v@.take(v.len() as int) =~= v@);
    s
}

} // verus!
