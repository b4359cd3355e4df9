//! Section refinement for PDF (mostly OCR) books: table-of-contents and front
//! matter removal, heading recovery, and merging of sections that one chapter
//! was split into.
use vstd::prelude::*;

use crate::domain::section::{Section, SectionView};
use crate::parser::structure::{cjk_heading_level_chars, spec_cjk_heading_level, views_of};
use crate::utils::chars::{
    all_in, all_in_class, chars_of, contains, contains_chars, copy_range, count_class, count_in,
    eq_chars, join, join_chars, lemma_deep_view_push, lines, lower,
    lower_chars, remove_class, remove_class_chars, split_lines, starts_with, starts_with_chars,
    string_of, trail_len, trim, trim_chars, utf8_len, utf8_len_at_most, CharClass,
};
use crate::utils::copy::{copy_opt_string, copy_string, copy_strings, copy_usizes};

verus! {

// ---------------------------------------------------------------------------
// Headings
// ---------------------------------------------------------------------------

/// A numbered Chinese chapter heading such as `第一章 …` or `第3卷 …`
/// (surrounding whitespace ignored).
pub open spec fn spec_looks_like_numbered_cjk_heading(line: Seq<char>) -> bool {
    spec_cjk_heading_level(trim(line)) is Some
}

pub fn looks_like_numbered_cjk_heading_chars(line: &[char]) -> (r: bool)
    ensures
        r == spec_looks_like_numbered_cjk_heading(line@),
{
    cjk_heading_level_chars(&trim_chars(line)).is_some()
}

/// Recognizes numbered Chinese chapter headings.
pub fn looks_like_numbered_cjk_heading(line: &str) -> (r: bool)
    ensures
        r == spec_looks_like_numbered_cjk_heading(line@),
{
    looks_like_numbered_cjk_heading_chars(&chars_of(line))
}

/// The named front and back parts of a book that OCR headings recover:
/// 引子 (prologue), 代序 (preface), 尾声 (epilogue), 后记 (afterword).
pub open spec fn is_named_part(t: Seq<char>) -> bool {
    t == "引子"@ || t == "代序"@ || t == "尾声"@ || t == "后记"@
}

fn named_part(t: &[char]) -> (r: bool)
    ensures
        r == is_named_part(t@),
{
    eq_chars(t, &chars_of("引子")) || eq_chars(t, &chars_of("代序")) || eq_chars(t, &chars_of("尾声"))
        || eq_chars(t, &chars_of("后记"))
}

/// A heading under which adjacent sections may be merged: a named part or a
/// numbered chapter heading.
pub open spec fn spec_is_mergeable_pdf_heading(heading: Seq<char>) -> bool {
    let t = trim(heading);
    is_named_part(t) || spec_looks_like_numbered_cjk_heading(t)
}

pub fn is_mergeable_pdf_heading(heading: &[char]) -> (r: bool)
    ensures
        r == spec_is_mergeable_pdf_heading(heading@),
{
    let t = trim_chars(heading);
    named_part(&t) || looks_like_numbered_cjk_heading_chars(&t)
}

/// An OCR-garbled heading: no CJK, at least four ASCII letters, and letters
/// making up at least half of its non-whitespace characters.
pub open spec fn spec_is_noisy_pdf_heading(heading: Seq<char>) -> bool {
    let t = trim(heading);
    let alpha = count_in(t, CharClass::AsciiAlphabetic);
    &&& count_in(t, CharClass::Cjk) == 0
    &&& alpha >= 4
    &&& alpha * 2 >= count_in(t, CharClass::NotWhitespace)
}

pub fn is_noisy_pdf_heading(heading: &[char]) -> (r: bool)
    ensures
        r == spec_is_noisy_pdf_heading(heading@),
{
    let t = trim_chars(heading);
    let alpha = count_class(&t, CharClass::AsciiAlphabetic);
    let cjk = count_class(&t, CharClass::Cjk);
    let visible = count_class(&t, CharClass::NotWhitespace);
    cjk == 0 && alpha >= 4 && alpha as u128 * 2 >= visible as u128
}

/// A table-of-contents entry used as a heading: a numbered chapter heading
/// ending in a digit (its page number).
pub open spec fn spec_looks_like_table_of_contents_heading(heading: Seq<char>) -> bool {
    let t = trim(heading);
    spec_looks_like_numbered_cjk_heading(t) && t.len() > 0 && crate::utils::chars::spec_is_ascii_digit(
        t.last(),
    )
}

pub fn looks_like_table_of_contents_heading(heading: &[char]) -> (r: bool)
    ensures
        r == spec_looks_like_table_of_contents_heading(heading@),
{
    let t = trim_chars(heading);
    looks_like_numbered_cjk_heading_chars(&t) && t.len() > 0 && '0' <= t[t.len() - 1] && t[t.len()
        - 1] <= '9'
}

/// A numbered heading without its trailing page number: the trimmed line with
/// trailing digits and whitespace removed, trimmed again.
pub open spec fn spec_cleaned_numbered_heading(line: Seq<char>) -> Option<Seq<char>> {
    if !spec_looks_like_numbered_cjk_heading(line) {
        None
    } else {
        let t = trim(line);
        Some(trim(t.take(t.len() - trail_len(t, CharClass::DigitOrWhitespace))))
    }
}

pub fn cleaned_numbered_heading(line: &[char]) -> (r: Option<Vec<char>>)
    ensures
        match spec_cleaned_numbered_heading(line@) {
            Some(h) => r matches Some(x) && x@ == h,
            None => r is None,
        },
{
    if !looks_like_numbered_cjk_heading_chars(line) {
        return None;
    }
    let t = trim_chars(line);
    let mut end = t.len();
    while end > 0 && (('0' <= t[end - 1] && t[end - 1] <= '9') || crate::utils::chars::is_whitespace(
        t[end - 1],
    ))
        invariant
            end <= t.len(),
            forall|j: int|
                end <= j < t.len() ==> crate::utils::chars::in_class(
                    #[trigger] t@[j],
                    CharClass::DigitOrWhitespace,
                ),
        decreases end,
    {
        end = end - 1;
    }
    proof {
        crate::utils::chars::lemma_trail_len_unique(t@, CharClass::DigitOrWhitespace, t.len() - end);
    }
    let kept = copy_range(&t, 0, end);
    assert(kept@ =~= t@.take(end as int));
    Some(trim_chars(&kept))
}

/// The heading a body line announces: a numbered heading without its page
/// number, or a named part the line starts with.
pub open spec fn spec_normalize_embedded_heading(line: Seq<char>) -> Option<Seq<char>> {
    let t = trim(line);
    if spec_cleaned_numbered_heading(t) is Some {
        spec_cleaned_numbered_heading(t)
    } else if starts_with(t, "引子"@) {
        Some("引子"@)
    } else if starts_with(t, "代序"@) {
        Some("代序"@)
    } else if starts_with(t, "尾声"@) {
        Some("尾声"@)
    } else if starts_with(t, "后记"@) {
        Some("后记"@)
    } else {
        None
    }
}

pub fn normalize_embedded_heading(line: &[char]) -> (r: Option<Vec<char>>)
    ensures
        match spec_normalize_embedded_heading(line@) {
            Some(h) => r matches Some(x) && x@ == h,
            None => r is None,
        },
{
    let t = trim_chars(line);
    match cleaned_numbered_heading(&t) {
        Some(c) => {
            return Some(c);
        },
        None => {},
    }
    if starts_with_chars(&t, &chars_of("引子")) {
        Some(chars_of("引子"))
    } else if starts_with_chars(&t, &chars_of("代序")) {
        Some(chars_of("代序"))
    } else if starts_with_chars(&t, &chars_of("尾声")) {
        Some(chars_of("尾声"))
    } else if starts_with_chars(&t, &chars_of("后记")) {
        Some(chars_of("后记"))
    } else {
        None
    }
}

/// The first heading announced in the first 80 lines of `ls` from line `i`
/// on, with the trimmed text after it, provided that text is not empty.
pub open spec fn embedded_heading_from(ls: Seq<Seq<char>>, i: int) -> Option<(Seq<char>, Seq<char>)>
    decreases ls.len() - i,
{
    if i < 0 || i >= ls.len() || i >= 80 {
        None
    } else {
        let t = trim(ls[i]);
        let remaining = trim(join(ls.skip(i + 1), seq!['\n']));
        if t.len() > 0 && spec_normalize_embedded_heading(t) is Some && remaining.len() > 0 {
            Some((spec_normalize_embedded_heading(t)->0, remaining))
        } else {
            embedded_heading_from(ls, i + 1)
        }
    }
}

pub open spec fn spec_extract_embedded_heading(content: Seq<char>) -> Option<(Seq<char>, Seq<char>)> {
    embedded_heading_from(lines(content), 0)
}

fn tail_lines(ls: &Vec<Vec<char>>, from: usize) -> (r: Vec<Vec<char>>)
    requires
        from <= ls.len(),
    ensures
        r.deep_view() == ls.deep_view().skip(from as int),
{
    let mut r: Vec<Vec<char>> = Vec::new();
    let mut k = from;
    while k < ls.len()
        invariant
            from <= k <= ls.len(),
            r.deep_view() == ls.deep_view().subrange(from as int, k as int),
        decreases ls.len() - k,
    {
        let l = copy_range(&ls[k], 0, ls[k].len());
        assert(l@ =~= ls@[k as int]@);
        let ghost before = r;
        r.push(l);
        proof {
            lemma_deep_view_push(before, r, l);
        }
        k = k + 1;
        assert(r.deep_view() =~= ls.deep_view().subrange(from as int, k as int));
    }
    assert(ls.deep_view().subrange(from as int, ls.len() as int) =~= ls.deep_view().skip(
        from as int,
    ));
    r
}

pub fn extract_embedded_heading(content: &[char]) -> (r: Option<(Vec<char>, Vec<char>)>)
    ensures
        match spec_extract_embedded_heading(content@) {
            Some((h, rest)) => r matches Some((x, y)) && x@ == h && y@ == rest,
            None => r is None,
        },
{
    let ls = split_lines(content);
    let ghost lv = ls.deep_view();
    let mut i: usize = 0;
    while i < ls.len() && i < 80
        invariant
            lv == ls.deep_view(),
            lv == lines(content@),
            i <= ls.len(),
            embedded_heading_from(lv, i as int) == embedded_heading_from(lv, 0),
        decreases ls.len() - i,
    {
        assert(lv[i as int] == ls@[i as int]@);
        let t = trim_chars(&ls[i]);
        if t.len() > 0 {
            match normalize_embedded_heading(&t) {
                Some(h) => {
                    let rest = tail_lines(&ls, i + 1);
                    let joined = join_chars(&rest, &['\n']);
                    assert(['\n']@ =~= seq!['\n']);
                    let remaining = trim_chars(&joined);
                    if remaining.len() > 0 {
                        return Some((h, remaining));
                    }
                },
                None => {},
            }
        }
        i = i + 1;
    }
    None
}

/// A prologue that OCR mislabelled as epilogue or afterword: under the
/// heading 尾声 or 后记, the first 40 lines contain one of the prologue's
/// opening phrases.
pub open spec fn spec_recover_pdf_heading_from_body(heading: Seq<char>, content: Seq<char>) -> Option<Seq<char>> {
    let h = trim(heading);
    let ls = lines(content);
    let preview = join(if ls.len() > 40 { ls.take(40) } else { ls }, seq!['\n']);
    if !(h == "尾声"@ || h == "后记"@) {
        None
    } else if contains(preview, "股商最后的人祭"@) || contains(preview, "下面，先来复原"@) || contains(
        preview,
        "人和祭的消亡和周灭商有直接关系"@,
    ) {
        Some("引子"@)
    } else {
        None
    }
}

pub fn recover_pdf_heading_from_body(heading: &[char], content: &[char]) -> (r: Option<Vec<char>>)
    ensures
        match spec_recover_pdf_heading_from_body(heading@, content@) {
            Some(h) => r matches Some(x) && x@ == h,
            None => r is None,
        },
{
    let h = trim_chars(heading);
    if !(eq_chars(&h, &chars_of("尾声")) || eq_chars(&h, &chars_of("后记"))) {
        return None;
    }
    let mut ls = split_lines(content);
    let ghost all = ls.deep_view();
    if ls.len() > 40 {
        ls.truncate(40);
        assert(ls.deep_view() =~= all.take(40));
    }
    let preview = join_chars(&ls, &['\n']);
    assert(['\n']@ =~= seq!['\n']);
    if contains_chars(&preview, &chars_of("股商最后的人祭")) || contains_chars(&preview, &chars_of("下面，先来复原"))
        || contains_chars(&preview, &chars_of("人和祭的消亡和周灭商有直接关系")) {
        Some(chars_of("引子"))
    } else {
        None
    }
}

// ---------------------------------------------------------------------------
// Line lists
// ---------------------------------------------------------------------------

/// The trimmed lines of `ls` that are not empty.
pub open spec fn nonempty_trimmed(ls: Seq<Seq<char>>) -> Seq<Seq<char>>
    decreases ls.len(),
{
    if ls.len() == 0 {
        ls
    } else {
        let r = nonempty_trimmed(ls.drop_last());
        let t = trim(ls.last());
        if t.len() > 0 {
            r.push(t)
        } else {
            r
        }
    }
}

pub fn nonempty_trimmed_lines(content: &[char]) -> (r: Vec<Vec<char>>)
    ensures
        r.deep_view() == nonempty_trimmed(lines(content@)),
{
    let ls = split_lines(content);
    let ghost lv = ls.deep_view();
    let mut r: Vec<Vec<char>> = Vec::new();
    let mut i: usize = 0;
    while i < ls.len()
        invariant
            lv == ls.deep_view(),
            i <= ls.len(),
            r.deep_view() == nonempty_trimmed(lv.take(i as int)),
        decreases ls.len() - i,
    {
        assert(lv.take(i + 1).drop_last() =~= lv.take(i as int));
        assert(lv.take(i + 1).last() == ls@[i as int]@);
        let t = trim_chars(&ls[i]);
        if t.len() > 0 {
            let ghost before = r;
            r.push(t);
            proof {
                lemma_deep_view_push(before, r, t);
            }
        }
        i = i + 1;
    }
    assert(lv.take(ls.len() as int) =~= lv);
    r
}

/// Number of lines of `ls` at most `n` characters long.
pub open spec fn short_lines(ls: Seq<Seq<char>>, n: nat) -> nat
    decreases ls.len(),
{
    if ls.len() == 0 {
        0
    } else {
        short_lines(ls.drop_last(), n) + if ls.last().len() <= n {
            1nat
        } else {
            0nat
        }
    }
}

fn count_short_lines(ls: &Vec<Vec<char>>, n: usize) -> (r: usize)
    ensures
        r == short_lines(ls.deep_view(), n as nat),
{
    let ghost lv = ls.deep_view();
    let mut r: usize = 0;
    let mut i: usize = 0;
    while i < ls.len()
        invariant
            lv == ls.deep_view(),
            i <= ls.len(),
            r <= i,
            r == short_lines(lv.take(i as int), n as nat),
        decreases ls.len() - i,
    {
        assert(lv.take(i + 1).drop_last() =~= lv.take(i as int));
        assert(lv.take(i + 1).last() == ls@[i as int]@);
        if ls[i].len() <= n {
            r = r + 1;
        }
        i = i + 1;
    }
    assert(lv.take(ls.len() as int) =~= lv);
    r
}

// ---------------------------------------------------------------------------
// Section content
// ---------------------------------------------------------------------------

/// A line of fragment noise at the start of an OCR section: no CJK, at most
/// six non-whitespace characters, at least half of them (rounded down) ASCII
/// letters and digits.
pub open spec fn spec_looks_like_leading_noise_line(line: Seq<char>) -> bool {
    let compact = remove_class(line, CharClass::Whitespace);
    let total = compact.len();
    compact.len() == 0 || (count_in(compact, CharClass::Cjk) == 0 && total <= 6 && count_in(
        compact,
        CharClass::AsciiAlphabetic,
    ) + count_in(compact, CharClass::AsciiDigit) >= total / 2)
}

pub fn looks_like_leading_noise_line(line: &[char]) -> (r: bool)
    ensures
        r == spec_looks_like_leading_noise_line(line@),
{
    let compact = remove_class_chars(line, CharClass::Whitespace);
    if compact.len() == 0 {
        return true;
    }
    let cjk = count_class(&compact, CharClass::Cjk);
    let alpha = count_class(&compact, CharClass::AsciiAlphabetic);
    let digits = count_class(&compact, CharClass::AsciiDigit);
    let total = compact.len();
    cjk == 0 && total <= 6 && alpha as u128 + digits as u128 >= (total / 2) as u128
}

/// Number of leading noise lines of `ls`.
pub open spec fn leading_noise(ls: Seq<Seq<char>>) -> nat
    decreases ls.len(),
{
    if ls.len() > 0 && spec_looks_like_leading_noise_line(ls[0]) {
        1 + leading_noise(ls.drop_first())
    } else {
        0
    }
}

proof fn lemma_leading_noise_unique(ls: Seq<Seq<char>>, n: int)
    requires
        0 <= n <= ls.len(),
        forall|j: int| 0 <= j < n ==> spec_looks_like_leading_noise_line(#[trigger] ls[j]),
        n == ls.len() || !spec_looks_like_leading_noise_line(ls[n]),
    ensures
        leading_noise(ls) == n,
    decreases n,
{
    if n > 0 {
        let t = ls.drop_first();
        assert forall|j: int| 0 <= j < n - 1 implies spec_looks_like_leading_noise_line(
            #[trigger] t[j],
        ) by {
            assert(t[j] == ls[j + 1]);
        }
        if n - 1 < t.len() {
            assert(t[n - 1] == ls[n]);
        }
        lemma_leading_noise_unique(t, n - 1);
    }
}

/// Index of the first table-of-contents marker line (目 录 or 目录) at or
/// after `i`, or the number of lines.
pub open spec fn toc_marker_index(ls: Seq<Seq<char>>, i: int) -> int
    decreases ls.len() - i,
{
    if i < 0 || i >= ls.len() {
        ls.len() as int
    } else if ls[i] == "目 录"@ || ls[i] == "目录"@ {
        i
    } else {
        toc_marker_index(ls, i + 1)
    }
}

proof fn lemma_toc_marker_index_unique(ls: Seq<Seq<char>>, i: int, j: int)
    requires
        0 <= i <= j <= ls.len(),
        forall|m: int| i <= m < j ==> !(#[trigger] ls[m] == "目 录"@ || ls[m] == "目录"@),
        j == ls.len() || ls[j] == "目 录"@ || ls[j] == "目录"@,
    ensures
        toc_marker_index(ls, i) == j,
    decreases j - i,
{
    if i < j {
        lemma_toc_marker_index_unique(ls, i + 1, j);
    }
}

/// Section text with OCR debris removed: its non-empty trimmed lines, without
/// leading fragment-noise lines, cut at a table-of-contents marker line,
/// joined with line feeds.
pub open spec fn spec_trim_pdf_section_content(content: Seq<char>) -> Seq<char> {
    let ls0 = nonempty_trimmed(lines(content));
    let ls = ls0.skip(leading_noise(ls0) as int);
    trim(join(ls.take(toc_marker_index(ls, 0)), seq!['\n']))
}

pub fn trim_pdf_section_content_chars(content: &[char]) -> (r: Vec<char>)
    ensures
        r@ == spec_trim_pdf_section_content(content@),
{
    let ls0 = nonempty_trimmed_lines(content);
    let ghost l0 = ls0.deep_view();
    let mut k: usize = 0;
    while k < ls0.len() && looks_like_leading_noise_line(&ls0[k])
        invariant
            l0 == ls0.deep_view(),
            k <= ls0.len(),
            forall|j: int| 0 <= j < k ==> spec_looks_like_leading_noise_line(#[trigger] l0[j]),
        decreases ls0.len() - k,
    {
        assert(l0[k as int] == ls0@[k as int]@);
        k = k + 1;
    }
    proof {
        if k < ls0.len() {
            assert(l0[k as int] == ls0@[k as int]@);
        }
        lemma_leading_noise_unique(l0, k as int);
    }
    let ls = tail_lines(&ls0, k);
    let ghost lv = ls.deep_view();
    let toc_a = chars_of("目 录");
    let toc_b = chars_of("目录");
    let mut m: usize = 0;
    while m < ls.len() && !(eq_chars(&ls[m], &toc_a) || eq_chars(&ls[m], &toc_b))
        invariant
            lv == ls.deep_view(),
            toc_a@ == "目 录"@,
            toc_b@ == "目录"@,
            m <= ls.len(),
            forall|j: int| 0 <= j < m ==> !(#[trigger] lv[j] == "目 录"@ || lv[j] == "目录"@),
        decreases ls.len() - m,
    {
        assert(lv[m as int] == ls@[m as int]@);
        m = m + 1;
    }
    proof {
        if m < ls.len() {
            assert(lv[m as int] == ls@[m as int]@);
        }
        lemma_toc_marker_index_unique(lv, 0, m as int);
    }
    let mut kept = ls;
    kept.truncate(m);
    assert(kept.deep_view() =~= lv.take(m as int));
    let joined = join_chars(&kept, &['\n']);
    assert(['\n']@ =~= seq!['\n']);
    trim_chars(&joined)
}

// ---------------------------------------------------------------------------
// Section classification
// ---------------------------------------------------------------------------

/// Some line contains both `a` and `b`.
pub open spec fn some_line_contains_both(ls: Seq<Seq<char>>, a: Seq<char>, b: Seq<char>) -> bool {
    exists|i: int| 0 <= i < ls.len() && contains(#[trigger] ls[i], a) && contains(ls[i], b)
}

/// A cover or catalogue page: at least six lines, at least half of them at
/// most eight characters, a publisher (出版社), and a bibliography marker, an
/// author line (李 … 著) or a long heading.
pub open spec fn spec_looks_like_cover_metadata_section(
    ls: Seq<Seq<char>>,
    heading: Seq<char>,
    content_lower: Seq<char>,
) -> bool {
    let short = short_lines(ls, 8);
    let has_bib = contains(content_lower, "著."@) || contains(content_lower, "桂林"@) || contains(
        content_lower,
        "文化史"@,
    ) || contains(content_lower, "研究-中国"@);
    &&& ls.len() >= 6
    &&& short * 2 >= ls.len()
    &&& contains(content_lower, "出版社"@)
    &&& (has_bib || some_line_contains_both(ls, "李"@, "著"@) || heading.len() >= 12)
}

pub fn looks_like_cover_metadata_section(
    ls: &Vec<Vec<char>>,
    heading: &[char],
    content_lower: &[char],
) -> (r: bool)
    ensures
        r == spec_looks_like_cover_metadata_section(ls.deep_view(), heading@, content_lower@),
{
    let short = count_short_lines(ls, 8);
    let has_publisher = contains_chars(content_lower, &chars_of("出版社"));
    let has_bib = contains_chars(content_lower, &chars_of("著.")) || contains_chars(
        content_lower,
        &chars_of("桂林"),
    ) || contains_chars(content_lower, &chars_of("文化史")) || contains_chars(
        content_lower,
        &chars_of("研究-中国"),
    );
    let li = chars_of("李");
    let zhu = chars_of("著");
    let mut author = false;
    let mut i: usize = 0;
    while i < ls.len()
        invariant
            i <= ls.len(),
            li@ == "李"@,
            zhu@ == "著"@,
            author == exists|j: int|
                0 <= j < i && contains(#[trigger] ls.deep_view()[j], "李"@) && contains(
                    ls.deep_view()[j],
                    "著"@,
                ),
        decreases ls.len() - i,
    {
        assert(ls.deep_view()[i as int] == ls@[i as int]@);
        if contains_chars(&ls[i], &li) && contains_chars(&ls[i], &zhu) {
            author = true;
        }
        i = i + 1;
    }
    ls.len() >= 6 && short as u128 * 2 >= ls.len() as u128 && has_publisher && (has_bib || author
        || heading.len() >= 12)
}

/// A section without body value: empty heading or content; catalogue, ISBN,
/// web or publisher text; a short Latin-only heading; content made mostly of
/// very short lines; a cover page; or content of at most three bytes.
pub open spec fn spec_is_low_signal_pdf_section(heading0: Seq<char>, content0: Seq<char>) -> bool {
    let heading = trim(heading0);
    let content = trim(content0);
    let hl = lower(heading);
    let cl = lower(content);
    let ls = nonempty_trimmed(lines(content));
    if heading.len() == 0 || content.len() == 0 {
        true
    } else if starts_with(hl, "isbn"@) || contains(hl, "cip"@) || contains(hl, "www"@) || contains(
        hl,
        "出版社"@,
    ) || contains(hl, "图书在版编目"@) || contains(cl, "图书在版编目"@) || contains(
        cl,
        "中国版本图书馆cip"@,
    ) {
        true
    } else if count_in(heading, CharClass::Cjk) == 0 && count_in(heading, CharClass::AsciiAlphabetic)
        > 0 && utf8_len(heading) <= 10 {
        true
    } else if ls.len() >= 8 && short_lines(ls, 4) * 4 >= ls.len() * 3 {
        true
    } else if spec_looks_like_cover_metadata_section(ls, heading, cl) {
        true
    } else {
        utf8_len(content) <= 3
    }
}

pub fn is_low_signal_pdf_section(section: &Section) -> (r: bool)
    ensures
        r == spec_is_low_signal_pdf_section(section@.heading, section@.content),
{
    let heading = trim_chars(&chars_of(section.heading.as_str()));
    let content = trim_chars(&chars_of(section.content.as_str()));
    if heading.len() == 0 || content.len() == 0 {
        return true;
    }
    let hl = lower_chars(&heading);
    let cl = lower_chars(&content);
    if starts_with_chars(&hl, &chars_of("isbn")) || contains_chars(&hl, &chars_of("cip"))
        || contains_chars(&hl, &chars_of("www")) || contains_chars(&hl, &chars_of("出版社"))
        || contains_chars(&hl, &chars_of("图书在版编目")) || contains_chars(&cl, &chars_of("图书在版编目"))
        || contains_chars(&cl, &chars_of("中国版本图书馆cip")) {
        return true;
    }
    let heading_alpha = count_class(&heading, CharClass::AsciiAlphabetic);
    let heading_cjk = count_class(&heading, CharClass::Cjk);
    if heading_cjk == 0 && heading_alpha > 0 && utf8_len_at_most(&heading, 10) {
        return true;
    }
    let ls = nonempty_trimmed_lines(&content);
    let short = count_short_lines(&ls, 4);
    if ls.len() >= 8 && short as u128 * 4 >= ls.len() as u128 * 3 {
        return true;
    }
    if looks_like_cover_metadata_section(&ls, &heading, &cl) {
        return true;
    }
    utf8_len_at_most(&content, 3)
}

/// Some line of `ls` is made of ASCII digits only (an empty line counts).
pub open spec fn some_line_all_digits(ls: Seq<Seq<char>>) -> bool {
    exists|i: int| 0 <= i < ls.len() && all_in(#[trigger] trim(ls[i]), CharClass::AsciiDigit)
}

/// A table-of-contents page: a page-numbered chapter heading over at most four
/// short lines, the one known OCR table-of-contents page, or at most four
/// lines with a page-number line.
pub open spec fn spec_is_table_of_contents_section(heading0: Seq<char>, content0: Seq<char>) -> bool {
    let heading = trim(heading0);
    let content = trim(content0);
    let ls = nonempty_trimmed(lines(content));
    let line_count = ls.len();
    let short = short_lines(ls, 24);
    ||| (spec_looks_like_table_of_contents_heading(heading) && line_count <= 4 && short
        == line_count)
    ||| (heading == "第二十七章 ”诸神远去之后 549"@ && contains(content, "引子 3"@))
    ||| (some_line_all_digits(lines(content)) && line_count <= 4)
}

pub fn is_table_of_contents_section(section: &Section) -> (r: bool)
    ensures
        r == spec_is_table_of_contents_section(section@.heading, section@.content),
{
    let heading = trim_chars(&chars_of(section.heading.as_str()));
    let content = trim_chars(&chars_of(section.content.as_str()));
    let ls = nonempty_trimmed_lines(&content);
    let line_count = ls.len();
    let short = count_short_lines(&ls, 24);
    let all = split_lines(&content);
    let mut page_number_like = false;
    let mut i: usize = 0;
    while i < all.len()
        invariant
            i <= all.len(),
            page_number_like == exists|j: int|
                0 <= j < i && all_in(#[trigger] trim(all.deep_view()[j]), CharClass::AsciiDigit),
        decreases all.len() - i,
    {
        assert(all.deep_view()[i as int] == all@[i as int]@);
        if all_in_class(&trim_chars(&all[i]), CharClass::AsciiDigit) {
            page_number_like = true;
        }
        i = i + 1;
    }
    (looks_like_table_of_contents_heading(&heading) && line_count <= 4 && short == line_count) || (
    eq_chars(&heading, &chars_of("第二十七章 ”诸神远去之后 549")) && contains_chars(
        &content,
        &chars_of("引子 3"),
    )) || (page_number_like && line_count <= 4)
}

// ---------------------------------------------------------------------------
// Section normalization, merging and refinement
// ---------------------------------------------------------------------------

/// A section with a new heading and content, the other fields kept.
pub open spec fn with_text(s: SectionView, heading: Seq<char>, content: Seq<char>) -> SectionView {
    SectionView { heading, content, ..s }
}

/// A section after PDF normalization: none for a table-of-contents page; else
/// its content trimmed of OCR debris, its heading replaced by one announced in
/// the body when the heading is OCR garbage or a contents entry, a mislabelled
/// prologue recovered, and the content trimmed again.
pub open spec fn spec_normalize_pdf_section(s: SectionView) -> Option<SectionView> {
    if spec_is_table_of_contents_section(s.heading, s.content) {
        None
    } else {
        let c1 = spec_trim_pdf_section_content(s.content);
        let emb = spec_extract_embedded_heading(c1);
        let relabel = emb is Some && (spec_is_noisy_pdf_heading(s.heading)
            || spec_looks_like_table_of_contents_heading(s.heading));
        let pair = emb->0;
        let h2 = if relabel {
            pair.0
        } else {
            s.heading
        };
        let c2 = if relabel {
            pair.1
        } else {
            c1
        };
        let h3 = match spec_recover_pdf_heading_from_body(h2, c2) {
            Some(h) => h,
            None => h2,
        };
        Some(with_text(s, h3, spec_trim_pdf_section_content(c2)))
    }
}

fn rebuild(s: &Section, heading: &[char], content: &[char]) -> (r: Section)
    ensures
        r@ == with_text(s@, heading@, content@),
{
    Section {
        id: copy_string(&s.id),
        document_id: copy_string(&s.document_id),
        heading: string_of(heading),
        level: s.level,
        ordinal_path: copy_usizes(&s.ordinal_path),
        parent_id: copy_opt_string(&s.parent_id),
        content: string_of(content),
        chunk_ids: copy_strings(&s.chunk_ids),
    }
}

pub fn normalize_pdf_section(section: Section) -> (r: Option<Section>)
    ensures
        match spec_normalize_pdf_section(section@) {
            Some(v) => r matches Some(s) && s@ == v,
            None => r is None,
        },
{
    if is_table_of_contents_section(&section) {
        return None;
    }
    let mut heading = chars_of(section.heading.as_str());
    let mut content = trim_pdf_section_content_chars(&chars_of(section.content.as_str()));
    match extract_embedded_heading(&content) {
        Some((h, trimmed)) => {
            if is_noisy_pdf_heading(&heading) || looks_like_table_of_contents_heading(&heading) {
                heading = h;
                content = trimmed;
            }
        },
        None => {},
    }
    match recover_pdf_heading_from_body(&heading, &content) {
        Some(h) => {
            heading = h;
        },
        None => {},
    }
    let content = trim_pdf_section_content_chars(&content);
    Some(rebuild(&section, &heading, &content))
}

/// Adjacent sections under the same mergeable heading merged into the first:
/// its content gets a line feed (when both are non-empty) and the later
/// content trimmed; every section that starts a group has its content
/// trimmed.
pub open spec fn spec_merge_adjacent(secs: Seq<SectionView>) -> Seq<SectionView>
    decreases secs.len(),
{
    if secs.len() == 0 {
        seq![]
    } else {
        let merged = spec_merge_adjacent(secs.drop_last());
        let s = secs.last();
        if merged.len() > 0 && merged.last().heading == s.heading && spec_is_mergeable_pdf_heading(
            s.heading,
        ) {
            let prev = merged.last();
            let sep = if prev.content.len() > 0 && s.content.len() > 0 {
                seq!['\n']
            } else {
                seq![]
            };
            merged.drop_last().push(
                SectionView { content: prev.content + sep + trim(s.content), ..prev },
            )
        } else {
            merged.push(SectionView { content: trim(s.content), ..s })
        }
    }
}

pub fn merge_adjacent_pdf_sections(sections: Vec<Section>) -> (r: Vec<Section>)
    ensures
        views_of(r@) == spec_merge_adjacent(views_of(sections@)),
{
    let ghost sv = views_of(sections@);
    let mut merged: Vec<Section> = Vec::new();
    let mut i: usize = 0;
    while i < sections.len()
        invariant
            sv == views_of(sections@),
            i <= sections.len(),
            views_of(merged@) == spec_merge_adjacent(sv.take(i as int)),
        decreases sections.len() - i,
    {
        proof {
            assert(sv.take(i + 1).drop_last() =~= sv.take(i as int));
            assert(sv.take(i + 1).last() == sections@[i as int]@);
        }
        let s = &sections[i];
        let heading = chars_of(s.heading.as_str());
        let content = chars_of(s.content.as_str());
        let n = merged.len();
        let mut did_merge = false;
        if n > 0 {
            let prev_heading = chars_of(merged[n - 1].heading.as_str());
            if eq_chars(&prev_heading, &heading) && is_mergeable_pdf_heading(&heading) {
                let ghost old_merged = views_of(merged@);
                let ghost pv = merged@[n - 1]@;
                assert(pv == old_merged[n - 1]);
                let prev = &merged[n - 1];
                let mut body = chars_of(prev.content.as_str());
                if body.len() > 0 && content.len() > 0 {
                    body.push('\n');
                }
                crate::utils::chars::append_chars(&mut body, &trim_chars(&content));
                let prev_heading_c = chars_of(prev.heading.as_str());
                let updated = rebuild(prev, &prev_heading_c, &body);
                assert(body@ =~= pv.content + (if pv.content.len() > 0 && content@.len() > 0 {
                    seq!['\n']
                } else {
                    seq![]
                }) + trim(content@));
                merged.set(n - 1, updated);
                proof {
                    assert(views_of(merged@) =~= old_merged.drop_last().push(updated@));
                }
                did_merge = true;
            }
        }
        if !did_merge {
            let trimmed = trim_chars(&content);
            let fresh = rebuild(s, &heading, &trimmed);
            let ghost old_merged = views_of(merged@);
            merged.push(fresh);
            proof {
                assert(views_of(merged@) =~= old_merged.push(fresh@));
            }
        }
        i = i + 1;
    }
    assert(sv.take(sections.len() as int) =~= sv);
    merged
}

/// The sections after normalization, without the ones normalization drops or
/// that carry no body text.
pub open spec fn kept_sections(secs: Seq<SectionView>) -> Seq<SectionView>
    decreases secs.len(),
{
    if secs.len() == 0 {
        seq![]
    } else {
        let rest = kept_sections(secs.drop_last());
        match spec_normalize_pdf_section(secs.last()) {
            Some(v) => if spec_is_low_signal_pdf_section(v.heading, v.content) {
                rest
            } else {
                rest.push(v)
            },
            None => rest,
        }
    }
}

/// Index of the first section with a numbered chapter heading, or the number
/// of sections.
pub open spec fn first_chapter(secs: Seq<SectionView>, i: int) -> int
    decreases secs.len() - i,
{
    if i < 0 || i >= secs.len() {
        secs.len() as int
    } else if spec_looks_like_numbered_cjk_heading(secs[i].heading) {
        i
    } else {
        first_chapter(secs, i + 1)
    }
}

proof fn lemma_first_chapter_unique(secs: Seq<SectionView>, i: int, j: int)
    requires
        0 <= i <= j <= secs.len(),
        forall|m: int| i <= m < j ==> !spec_looks_like_numbered_cjk_heading(#[trigger] secs[m].heading),
        j == secs.len() || spec_looks_like_numbered_cjk_heading(secs[j].heading),
    ensures
        first_chapter(secs, i) == j,
    decreases j - i,
{
    if i < j {
        lemma_first_chapter_unique(secs, i + 1, j);
    }
}

/// `refine_pdf_sections`: the kept sections from the first numbered chapter on
/// (all of them when there is none), with adjacent same-heading sections
/// merged.
pub open spec fn spec_refine_pdf_sections(secs: Seq<SectionView>) -> Seq<SectionView> {
    let kept = kept_sections(secs);
    let f = first_chapter(kept, 0);
    spec_merge_adjacent(if f < kept.len() { kept.skip(f) } else { kept })
}

pub fn refine_pdf_sections(sections: Vec<Section>) -> (r: Vec<Section>)
    ensures
        views_of(r@) == spec_refine_pdf_sections(views_of(sections@)),
{
    let ghost sv = views_of(sections@);
    let mut kept: Vec<Section> = Vec::new();
    let ghost all = sections@;
    let mut i: usize = 0;
    while i < sections.len()
        invariant
            sv == views_of(all),
            sections@ == all,
            i <= sections.len(),
            views_of(kept@) == kept_sections(sv.take(i as int)),
        decreases sections.len() - i,
    {
        proof {
            assert(sv.take(i + 1).drop_last() =~= sv.take(i as int));
            assert(sv.take(i + 1).last() == sections@[i as int]@);
        }
        let copy = sections[i].clone();
        match normalize_pdf_section(copy) {
            Some(n) => {
                if !is_low_signal_pdf_section(&n) {
                    let ghost before = views_of(kept@);
                    kept.push(n);
                    assert(views_of(kept@) =~= before.push(n@));
                }
            },
            None => {},
        }
        i = i + 1;
    }
    assert(sv.take(sections.len() as int) =~= sv);
    let ghost kv = views_of(kept@);
    let mut first: usize = 0;
    while first < kept.len() && !looks_like_numbered_cjk_heading_chars(
        &chars_of(kept[first].heading.as_str()),
    )
        invariant
            kv == views_of(kept@),
            first <= kept.len(),
            forall|m: int| 0 <= m < first ==> !spec_looks_like_numbered_cjk_heading(#[trigger] kv[m].heading),
        decreases kept.len() - first,
    {
        assert(kv[first as int] == kept@[first as int]@);
        first = first + 1;
    }
    proof {
        if first < kept.len() {
            assert(kv[first as int] == kept@[first as int]@);
        }
        lemma_first_chapter_unique(kv, 0, first as int);
    }
    if first == kept.len() {
        first = 0;
    }
    let mut body: Vec<Section> = Vec::new();
    let mut k = first;
    while k < kept.len()
        invariant
            kv == views_of(kept@),
            first <= k <= kept.len(),
            views_of(body@) == kv.subrange(first as int, k as int),
        decreases kept.len() - k,
    {
        let c = kept[k].clone();
        let ghost before = views_of(body@);
        body.push(c);
        assert(views_of(body@) =~= before.push(c@));
        k = k + 1;
        assert(kv.subrange(first as int, k as int) =~= kv.subrange(first as int, k - 1).push(
            kv[k - 1],
        ));
    }
    assert(kv.subrange(first as int, kept.len() as int) =~= kv.skip(first as int));
    assert(kv.skip(0) =~= kv);
    merge_adjacent_pdf_sections(body)
}


// ---------------------------------------------------------------------------
// Laws
// ---------------------------------------------------------------------------

/// Sections `i` and `i + 1` share a heading that merging applies to.
pub open spec fn repeats_at(secs: Seq<SectionView>, i: int) -> bool {
    secs[i].heading == secs[i + 1].heading && spec_is_mergeable_pdf_heading(secs[i + 1].heading)
}

/// Merging keeps the first section's heading in front, never lengthens the
/// list, and leaves no two neighbours with the same mergeable heading.
pub proof fn lemma_merge_adjacent(secs: Seq<SectionView>)
    ensures
        spec_merge_adjacent(secs).len() <= secs.len(),
        secs.len() > 0 ==> spec_merge_adjacent(secs).len() > 0 && spec_merge_adjacent(secs)[0].heading
            == secs[0].heading,
        forall|i: int|
            0 <= i < spec_merge_adjacent(secs).len() - 1 ==> !#[trigger] repeats_at(
                spec_merge_adjacent(secs),
                i,
            ),
    decreases secs.len(),
{
    if secs.len() > 0 {
        let pre = secs.drop_last();
        lemma_merge_adjacent(pre);
        let merged = spec_merge_adjacent(pre);
        let r = spec_merge_adjacent(secs);
        let s = secs.last();
        if pre.len() > 0 {
            assert(pre[0] == secs[0]);
        }
        if merged.len() > 0 && merged.last().heading == s.heading && spec_is_mergeable_pdf_heading(
            s.heading,
        ) {
            assert forall|i: int| 0 <= i < r.len() - 1 implies !#[trigger] repeats_at(r, i) by {
                assert(r[i] == merged[i]);
                assert(r[i + 1].heading == merged[i + 1].heading);
                assert(!repeats_at(merged, i));
            }
        } else {
            assert forall|i: int| 0 <= i < r.len() - 1 implies !#[trigger] repeats_at(r, i) by {
                assert(r[i] == merged[i]);
                if i + 1 < merged.len() {
                    assert(r[i + 1] == merged[i + 1]);
                    assert(!repeats_at(merged, i));
                }
            }
        }
    }
}

proof fn lemma_first_chapter_found(secs: Seq<SectionView>, i: int, k: int)
    requires
        0 <= i <= k < secs.len(),
        spec_looks_like_numbered_cjk_heading(secs[k].heading),
    ensures
        i <= first_chapter(secs, i) <= k,
        spec_looks_like_numbered_cjk_heading(secs[first_chapter(secs, i)].heading),
    decreases secs.len() - i,
{
    if !spec_looks_like_numbered_cjk_heading(secs[i].heading) {
        lemma_first_chapter_found(secs, i + 1, k);
    }
}

/// When a kept section carries a numbered chapter heading, the refined
/// sections start at such a heading: the front matter before the first
/// chapter is gone.
pub proof fn lemma_refine_starts_at_chapter(secs: Seq<SectionView>, k: int)
    requires
        0 <= k < kept_sections(secs).len(),
        spec_looks_like_numbered_cjk_heading(kept_sections(secs)[k].heading),
    ensures
        spec_refine_pdf_sections(secs).len() > 0,
        spec_looks_like_numbered_cjk_heading(spec_refine_pdf_sections(secs)[0].heading),
{
    let kept = kept_sections(secs);
    lemma_first_chapter_found(kept, 0, k);
    let f = first_chapter(kept, 0);
    let body = kept.skip(f);
    assert(body[0] == kept[f]);
    lemma_merge_adjacent(body);
}


/// The content without leading noise and table-of-contents tail (see `spec_trim_pdf_section_content`).
pub fn trim_pdf_section_content(content: &str) -> (r: String)
    ensures
        r@ == spec_trim_pdf_section_content(content@),
{
    string_of(&trim_pdf_section_content_chars(&chars_of(content)))
}

} // verus!
