//! Structure parsing: rebuilds a document's section hierarchy from its text by
//! heading heuristics (markdown `#` headings, numbered Chinese chapter labels,
//! and short upper-case ASCII lines).
use vstd::prelude::*;

use crate::domain::section::{Section, SectionView};
use crate::utils::chars::{
    all_in, all_in_class, chars_of, copy_range, count_in, count_class, eq_chars, join, join_chars,
    lead_len, lemma_deep_view_push, lemma_scan_to_bounds, lines, scan_class,
    scan_to, split_lines, split_words, string_of, trim, trim_chars, utf8_len, utf8_len_at_most,
    words, CharClass,
};
use crate::utils::copy::copy_string;
use crate::utils::ids::new_id;

verus! {

// ---------------------------------------------------------------------------
// Heading detection
// ---------------------------------------------------------------------------

/// The level a chapter label's marker gives: 部 and 卷 open a part (1), 篇 and
/// 章 a chapter (2), 节 a section (3).
pub open spec fn marker_level(c: char) -> usize {
    if c == '部' || c == '卷' {
        1
    } else if c == '节' {
        3
    } else {
        2
    }
}

/// The level of a numbered Chinese heading such as `第一章` or `第3卷`: the
/// line starts with 第, the first marker character (章 节 卷 篇 部) after it is
/// not the next character, and everything between 第 and that marker is a
/// numeral.
pub open spec fn spec_cjk_heading_level(line: Seq<char>) -> Option<usize> {
    if line.len() == 0 || line[0] != '第' {
        None
    } else {
        let rest = line.drop_first();
        let p = scan_to(rest, CharClass::HeadingMarker, 0);
        if p >= rest.len() || p == 0 {
            None
        } else if all_in(rest.take(p), CharClass::CjkNumeral) {
            Some(marker_level(rest[p]))
        } else {
            None
        }
    }
}

pub fn cjk_heading_level_chars(line: &[char]) -> (r: Option<usize>)
    ensures
        r == spec_cjk_heading_level(line@),
{
    if line.len() == 0 || line[0] != '第' {
        return None;
    }
    let rest = copy_range(line, 1, line.len());
    assert(rest@ =~= line@.drop_first());
    let p = scan_class(&rest, CharClass::HeadingMarker, 0);
    proof {
        lemma_scan_to_bounds(rest@, CharClass::HeadingMarker, 0);
    }
    if p >= rest.len() || p == 0 {
        return None;
    }
    let numeral = copy_range(&rest, 0, p);
    assert(numeral@ =~= rest@.take(p as int));
    if all_in_class(&numeral, CharClass::CjkNumeral) {
        let m = rest[p];
        if m == '部' || m == '卷' {
            Some(1)
        } else if m == '节' {
            Some(3)
        } else {
            Some(2)
        }
    } else {
        None
    }
}

/// Recognizes numbered Chinese headings such as `第一章` (level 2), `第七节`
/// (level 3) or `第3卷` (level 1).
pub fn detect_cjk_heading_level(line: &str) -> (r: Option<usize>)
    ensures
        r == spec_cjk_heading_level(line@),
{
    cjk_heading_level_chars(&chars_of(line))
}

/// Number of words with at least `n` ASCII letters.
pub open spec fn words_with_letters(ws: Seq<Seq<char>>, n: nat) -> nat
    decreases ws.len(),
{
    if ws.len() == 0 {
        0
    } else {
        words_with_letters(ws.drop_last(), n) + if count_in(ws.last(), CharClass::AsciiAlphabetic)
            >= n {
            1nat
        } else {
            0nat
        }
    }
}

fn count_words_with_letters(ws: &Vec<Vec<char>>, n: usize) -> (r: usize)
    ensures
        r == words_with_letters(ws.deep_view(), n as nat),
{
    let mut r: usize = 0;
    let mut i: usize = 0;
    while i < ws.len()
        invariant
            i <= ws.len(),
            r <= i,
            r == words_with_letters(ws.deep_view().take(i as int), n as nat),
        decreases ws.len() - i,
    {
        proof {
            assert(ws.deep_view().take(i + 1).drop_last() =~= ws.deep_view().take(i as int));
            assert(ws.deep_view().take(i + 1).last() == ws@[i as int]@);
        }
        if count_class(&ws[i], CharClass::AsciiAlphabetic) >= n {
            r = r + 1;
        }
        i = i + 1;
    }
    assert(ws.deep_view().take(ws.len() as int) =~= ws.deep_view());
    r
}

/// A short upper-case ASCII heading: at most ten words, only capitals,
/// digits, whitespace and `.:-`, and either at least 12 bytes long or with
/// two words of three or more letters one of which has four or more.
pub open spec fn spec_upper_heading(t: Seq<char>) -> bool {
    let ws = words(t);
    &&& ws.len() <= 10
    &&& all_in(t, CharClass::UpperHeading)
    &&& (utf8_len(t) >= 12 || (words_with_letters(ws, 3) >= 2 && words_with_letters(ws, 4) > 0))
}

fn upper_heading(t: &[char]) -> (r: bool)
    ensures
        r == spec_upper_heading(t@),
{
    let ws = split_words(t);
    if ws.len() > 10 || !all_in_class(t, CharClass::UpperHeading) {
        return false;
    }
    !utf8_len_at_most(t, 11) || (count_words_with_letters(&ws, 3) >= 2 && count_words_with_letters(
        &ws,
        4,
    ) > 0)
}

/// What `detect_heading` finds in a line: a markdown heading (for markdown
/// documents; level = number of leading `#`), a numbered Chinese heading, or
/// an upper-case ASCII heading (level 2); the heading text is the trimmed line
/// (for markdown, the trimmed text after the `#`s).
pub open spec fn spec_detect_heading(line: Seq<char>, media_type: Seq<char>) -> Option<(Seq<char>, usize)> {
    let t = trim(line);
    let hashes = lead_len(t, CharClass::Hash);
    let md = trim(t.skip(hashes as int));
    if t.len() == 0 {
        None
    } else if media_type == "text/markdown"@ && t[0] == '#' && md.len() > 0 {
        Some((md, hashes as usize))
    } else if spec_cjk_heading_level(t) is Some {
        Some((t, spec_cjk_heading_level(t)->0))
    } else if spec_upper_heading(t) {
        Some((t, 2))
    } else {
        None
    }
}

/// A short upper-case ASCII line is a heading at level 2, whatever the media
/// type: trimmed, it is at least 12 characters long, has at most ten words,
/// and holds only ASCII capitals, digits, ASCII whitespace and `.`, `:`,
/// `-`; the heading is the trimmed line.
pub proof fn lemma_upper_case_line_is_heading(line: Seq<char>, media_type: Seq<char>)
    requires
        trim(line).len() >= 12,
        words(trim(line)).len() <= 10,
        forall|i: int|
            0 <= i < trim(line).len() ==> {
                let c = #[trigger] trim(line)[i];
                ||| 'A' <= c <= 'Z'
                ||| '0' <= c <= '9'
                ||| c == ' ' || c == '\t' || c == '\n' || c == '\x0C' || c == '\r'
                ||| c == '.' || c == ':' || c == '-'
            },
    ensures
        spec_detect_heading(line, media_type) == Some((trim(line), 2usize)),
{
    let t = trim(line);
    crate::utils::chars::lemma_utf8_len_bounds(t);
    assert(t[0] != '#' && t[0] != '第');
    assert(all_in(t, CharClass::UpperHeading)) by {
        assert forall|i: int| 0 <= i < t.len() implies crate::utils::chars::in_class(
            #[trigger] t[i],
            CharClass::UpperHeading,
        ) by {
            let c = t[i];
            assert('A' <= c <= 'Z' || '0' <= c <= '9' || c == ' ' || c == '\t' || c == '\n' || c
                == '\x0C' || c == '\r' || c == '.' || c == ':' || c == '-');
        }
    }
    assert(spec_cjk_heading_level(t) is None);
    assert(spec_upper_heading(t));
}

pub fn detect_heading_chars(line: &[char], media_type: &[char]) -> (r: Option<(Vec<char>, usize)>)
    ensures
        match spec_detect_heading(line@, media_type@) {
            Some((h, l)) => r matches Some((rh, rl)) && rh@ == h && rl == l,
            None => r is None,
        },
{
    let t = trim_chars(line);
    if t.len() == 0 {
        return None;
    }
    if eq_chars(media_type, &chars_of("text/markdown")) && t[0] == '#' {
        let hashes = {
            let mut h: usize = 0;
            while h < t.len() && t[h] == '#'
                invariant
                    h <= t.len(),
                    forall|j: int| 0 <= j < h ==> t@[j] == '#',
                decreases t.len() - h,
            {
                h = h + 1;
            }
            proof {
                crate::utils::chars::lemma_lead_len_unique(t@, CharClass::Hash, h as int);
            }
            h
        };
        let rest = copy_range(&t, hashes, t.len());
        assert(rest@ =~= t@.skip(hashes as int));
        let md = trim_chars(&rest);
        if md.len() > 0 {
            return Some((md, hashes));
        }
    }
    match cjk_heading_level_chars(&t) {
        Some(level) => {
            return Some((t, level));
        },
        None => {},
    }
    if upper_heading(&t) {
        Some((t, 2))
    } else {
        None
    }
}

/// Recognizes a heading line and returns its text and level.
pub fn detect_heading(line: &str, media_type: &str) -> (r: Option<(String, usize)>)
    ensures
        match spec_detect_heading(line@, media_type@) {
            Some((h, l)) => r matches Some((rh, rl)) && rh@ == h && rl == l,
            None => r is None,
        },
{
    match detect_heading_chars(&chars_of(line), &chars_of(media_type)) {
        Some((h, l)) => Some((string_of(&h), l)),
        None => None,
    }
}

// ---------------------------------------------------------------------------
// Section drafts: what the parser decides, before ids are drawn
// ---------------------------------------------------------------------------

/// A section as the parser lays it out: heading, level, ordinal path and
/// (trimmed) content.
pub struct SectionDraft {
    pub heading: Seq<char>,
    pub level: usize,
    pub ordinal_path: Seq<usize>,
    pub content: Seq<char>,
}

pub open spec fn draft(heading: Seq<char>, level: usize, path: Seq<usize>, content: Seq<char>) -> SectionDraft {
    SectionDraft { heading, level, ordinal_path: path, content: trim(content) }
}

pub open spec fn draft_of(s: SectionView) -> SectionDraft {
    SectionDraft {
        heading: s.heading,
        level: s.level,
        ordinal_path: s.ordinal_path,
        content: s.content,
    }
}

/// The ordinal counters after a heading of `level`: cut or padded with zeros
/// to `level` entries, then the last one counted up.
pub open spec fn spec_update_counters(c: Seq<usize>, level: usize) -> Seq<usize> {
    let r = if c.len() < level {
        c + Seq::new((level - c.len()) as nat, |i: int| 0usize)
    } else {
        c.take(level as int)
    };
    if r.len() == 0 {
        r
    } else {
        r.update(r.len() - 1, (r.last() + 1) as usize)
    }
}

/// The parser's state after some lines: the sections closed so far, the
/// heading, level and counters of the open section, and its lines.
pub struct ParseState {
    pub drafts: Seq<SectionDraft>,
    pub heading: Seq<char>,
    pub level: usize,
    pub counters: Seq<usize>,
    pub pending: Seq<Seq<char>>,
}

/// One line read: a heading closes the open section when its text is not
/// blank (a blank one keeps its lines for the next section) and opens a new
/// one; any other line joins the open section.
pub open spec fn parse_step(st: ParseState, line: Seq<char>, media_type: Seq<char>) -> ParseState {
    match spec_detect_heading(line, media_type) {
        Some((h, l)) => {
            let content = join(st.pending, seq!['\n']);
            if trim(content).len() > 0 {
                ParseState {
                    drafts: st.drafts.push(draft(st.heading, st.level, st.counters, content)),
                    heading: h,
                    level: l,
                    counters: spec_update_counters(st.counters, l),
                    pending: seq![],
                }
            } else {
                ParseState {
                    drafts: st.drafts,
                    heading: h,
                    level: l,
                    counters: spec_update_counters(st.counters, l),
                    pending: st.pending,
                }
            }
        },
        None => ParseState { pending: st.pending.push(line), ..st },
    }
}

pub open spec fn parse_state(title: Seq<char>, media_type: Seq<char>, ls: Seq<Seq<char>>) -> ParseState
    decreases ls.len(),
{
    if ls.len() == 0 {
        ParseState { drafts: seq![], heading: title, level: 1, counters: seq![0usize], pending: seq![] }
    } else {
        parse_step(parse_state(title, media_type, ls.drop_last()), ls.last(), media_type)
    }
}

/// The sections `StructureParser::parse` lays out for a text: the state after
/// all lines, with the open section closed when its text is not blank (its
/// lines being the whole text when nothing was read into any section); when no
/// section results, one section with the title, level 1, path `[1]` and the
/// trimmed text.
pub open spec fn spec_parse_drafts(title: Seq<char>, media_type: Seq<char>, text: Seq<char>) -> Seq<SectionDraft> {
    let st = parse_state(title, media_type, lines(text));
    let pending = if st.pending.len() == 0 && st.drafts.len() == 0 {
        seq![text]
    } else {
        st.pending
    };
    let content = join(pending, seq!['\n']);
    let drafts = if trim(content).len() > 0 {
        st.drafts.push(draft(st.heading, st.level, st.counters, content))
    } else {
        st.drafts
    };
    if drafts.len() == 0 {
        seq![draft(title, 1, seq![1usize], text)]
    } else {
        drafts
    }
}

/// The index of the nearest section before `j` whose level is below that of
/// section `i`, or -1.
pub open spec fn nearest_shallower(secs: Seq<SectionView>, i: int, j: int) -> int
    decreases j,
{
    if j <= 0 {
        -1
    } else if secs[j - 1].level < secs[i].level {
        j - 1
    } else {
        nearest_shallower(secs, i, j - 1)
    }
}

/// The parent of section `i`: none at level 1 or above, else the id of the
/// nearest earlier section of a smaller level, if any.
pub open spec fn spec_parent_of(secs: Seq<SectionView>, i: int) -> Option<Seq<char>> {
    if secs[i].level <= 1 {
        None
    } else {
        let m = nearest_shallower(secs, i, i);
        if m < 0 {
            None
        } else {
            Some(secs[m].id)
        }
    }
}

pub open spec fn views_of(v: Seq<Section>) -> Seq<SectionView> {
    v.map_values(|s: Section| s@)
}

/// `r` is what `StructureParser::parse` gives for the text: the sections of
/// `spec_parse_drafts` in order, each with a 36-character id, the document id,
/// no chunks yet, and the parent given by `spec_parent_of`.
pub open spec fn is_parse_of(
    r: Seq<SectionView>,
    document_id: Seq<char>,
    title: Seq<char>,
    media_type: Seq<char>,
    text: Seq<char>,
) -> bool {
    let drafts = spec_parse_drafts(title, media_type, text);
    &&& r.len() == drafts.len()
    &&& forall|k: int|
        0 <= k < r.len() ==> {
            &&& draft_of(#[trigger] r[k]) == drafts[k]
            &&& r[k].document_id == document_id
            &&& r[k].chunk_ids.len() == 0
            &&& r[k].id.len() == 36
            &&& r[k].parent_id == spec_parent_of(r, k)
        }
}

pub proof fn lemma_nearest_shallower(secs: Seq<SectionView>, i: int, j: int)
    requires
        0 <= j <= i < secs.len(),
    ensures
        -1 <= nearest_shallower(secs, i, j) < j,
        nearest_shallower(secs, i, j) >= 0 ==> secs[nearest_shallower(secs, i, j)].level
            < secs[i].level,
        forall|m: int|
            nearest_shallower(secs, i, j) < m < j ==> secs[m].level >= secs[i].level,
    decreases j,
{
    if j > 0 && secs[j - 1].level >= secs[i].level {
        lemma_nearest_shallower(secs, i, j - 1);
    }
}

// ---------------------------------------------------------------------------
// The parser
// ---------------------------------------------------------------------------

/// Rebuilds document hierarchy from normalized text.
pub struct StructureParser;

fn update_counters(counters: &mut Vec<usize>, level: usize)
    requires
        forall|j: int| 0 <= j < old(counters)@.len() ==> old(counters)@[j] < usize::MAX,
    ensures
        final(counters)@ == spec_update_counters(old(counters)@, level),
{
    let ghost c = counters@;
    if counters.len() < level {
        while counters.len() < level
            invariant
                c.len() <= counters@.len() <= level,
                counters@ =~= c + Seq::new((counters@.len() - c.len()) as nat, |i: int| 0usize),
            decreases level - counters.len(),
        {
            counters.push(0);
        }
    }
    counters.truncate(level);
    let ghost r = if c.len() < level {
        c + Seq::new((level - c.len()) as nat, |i: int| 0usize)
    } else {
        c.take(level as int)
    };
    assert(counters@ =~= r);
    if counters.len() > 0 {
        let last = counters.len() - 1;
        assert(counters@[last as int] < usize::MAX) by {
            if last < c.len() {
                assert(counters@[last as int] == c[last as int]);
            }
        }
        let v = counters[last] + 1;
        counters.set(last, v);
    }
}

fn build_section(
    document_id: &str,
    heading: &[char],
    level: usize,
    counters: &Vec<usize>,
    content: &[char],
) -> (s: Section)
    ensures
        draft_of(s@) == draft(heading@, level, counters@, content@),
        s@.document_id == document_id@,
        s@.parent_id is None,
        s@.chunk_ids.len() == 0,
        s@.id.len() == 36,
{
    let trimmed = trim_chars(content);
    Section {
        id: new_id(),
        document_id: document_id.to_owned(),
        heading: string_of(heading),
        level,
        ordinal_path: crate::utils::copy::copy_usizes(counters),
        parent_id: None,
        content: string_of(&trimmed),
        chunk_ids: Vec::new(),
    }
}

fn maybe_build_section(
    document_id: &str,
    heading: &[char],
    level: usize,
    counters: &Vec<usize>,
    content: &[char],
) -> (r: Option<Section>)
    ensures
        trim(content@).len() == 0 ==> r is None,
        trim(content@).len() > 0 ==> (r matches Some(s) && {
            &&& draft_of(s@) == draft(heading@, level, counters@, content@)
            &&& s@.document_id == document_id@
            &&& s@.parent_id is None
            &&& s@.chunk_ids.len() == 0
            &&& s@.id.len() == 36
        }),
{
    let trimmed = trim_chars(content);
    if trimmed.len() == 0 {
        None
    } else {
        Some(build_section(document_id, heading, level, counters, content))
    }
}

/// Sets each section's `parent_id` to the id of the nearest earlier section of
/// a smaller level (none for level 1 and above).
fn attach_parent_ids(sections: Vec<Section>) -> (r: Vec<Section>)
    ensures
        r.len() == sections.len(),
        forall|k: int|
            0 <= k < r.len() ==> {
                &&& (#[trigger] r@[k])@.parent_id == spec_parent_of(views_of(sections@), k)
                &&& r@[k]@ == (SectionView { parent_id: r@[k]@.parent_id, ..sections@[k]@ })
            },
{
    let ghost sv = views_of(sections@);
    let mut out: Vec<Section> = Vec::new();
    let mut index: usize = 0;
    while index < sections.len()
        invariant
            sv == views_of(sections@),
            index <= sections.len(),
            out.len() == index,
            forall|k: int|
                0 <= k < index ==> {
                    &&& (#[trigger] out@[k])@.parent_id == spec_parent_of(sv, k)
                    &&& out@[k]@ == (SectionView { parent_id: out@[k]@.parent_id, ..sections@[k]@ })
                },
        decreases sections.len() - index,
    {
        let level = sections[index].level;
        let parent_id = if level <= 1 {
            None
        } else {
            let mut j = index;
            while j > 0 && sections[j - 1].level >= level
                invariant
                    sv == views_of(sections@),
                    j <= index < sections.len(),
                    level == sv[index as int].level,
                    nearest_shallower(sv, index as int, index as int) == nearest_shallower(
                        sv,
                        index as int,
                        j as int,
                    ),
                decreases j,
            {
                j = j - 1;
            }
            if j == 0 {
                None
            } else {
                Some(copy_string(&sections[j - 1].id))
            }
        };
        let s = &sections[index];
        let updated = Section {
            id: copy_string(&s.id),
            document_id: copy_string(&s.document_id),
            heading: copy_string(&s.heading),
            level: s.level,
            ordinal_path: crate::utils::copy::copy_usizes(&s.ordinal_path),
            parent_id,
            content: copy_string(&s.content),
            chunk_ids: crate::utils::copy::copy_strings(&s.chunk_ids),
        };
        out.push(updated);
        index = index + 1;
    }
    out
}

impl StructureParser {
    pub fn new() -> (r: Self) {
        StructureParser
    }
}

impl Default for StructureParser {
    fn default() -> (r: Self)
        ensures
            r == StructureParser,
    {
        StructureParser::new()
    }
}

impl StructureParser {

    /// Splits `text` into sections by its headings.  The sections are those of
    /// `spec_parse_drafts`, in order, each with a fresh 36-character id, the
    /// document id, no chunks yet, and the parent given by `spec_parent_of`.
    pub fn parse(&self, document_id: &str, title: &str, media_type: &str, text: &str) -> (r: Vec<Section>)
        ensures
            is_parse_of(views_of(r@), document_id@, title@, media_type@, text@),
    {
        let text_c = chars_of(text);
        let media_c = chars_of(media_type);
        let title_c = chars_of(title);
        let ls = split_lines(&text_c);
        let ghost lv = ls.deep_view();
        let mut sections: Vec<Section> = Vec::new();
        let mut heading: Vec<char> = copy_range(&title_c, 0, title_c.len());
        let mut level: usize = 1;
        let mut current: Vec<Vec<char>> = Vec::new();
        let mut counters: Vec<usize> = Vec::new();
        counters.push(0);
        assert(counters@ =~= seq![0usize]);
        assert(heading@ =~= title@);
        let mut i: usize = 0;
        while i < ls.len()
            invariant
                lv == ls.deep_view(),
                lv == lines(text@),
                media_c@ == media_type@,
                text_c@ == text@,
                i <= ls.len(),
                ({
                    let st = parse_state(title@, media_type@, lv.take(i as int));
                    &&& sections.len() == st.drafts.len()
                    &&& forall|k: int|
                        0 <= k < sections.len() ==> {
                            &&& draft_of((#[trigger] sections@[k])@) == st.drafts[k]
                            &&& sections@[k]@.document_id == document_id@
                            &&& sections@[k]@.parent_id is None
                            &&& sections@[k]@.chunk_ids.len() == 0
                            &&& sections@[k]@.id.len() == 36
                        }
                    &&& heading@ == st.heading
                    &&& level == st.level
                    &&& counters@ == st.counters
                    &&& current.deep_view() == st.pending
                }),
                forall|j: int| 0 <= j < counters@.len() ==> counters@[j] <= i,
            decreases ls.len() - i,
        {
            proof {
                assert(lv.take(i + 1).drop_last() =~= lv.take(i as int));
                assert(lv.take(i + 1).last() == ls@[i as int]@);
            }
            let ghost st = parse_state(title@, media_type@, lv.take(i as int));
            match detect_heading_chars(&ls[i], &media_c) {
                Some((h, l)) => {
                    let content = join_chars(&current, &['\n']);
                    assert(['\n']@ =~= seq!['\n']);
                    let ghost before = sections;
                    match maybe_build_section(document_id, &heading, level, &counters, &content) {
                        Some(section) => {
                            sections.push(section);
                            current = Vec::new();
                            assert(current.deep_view() =~= Seq::<Seq<char>>::empty());
                            assert forall|k: int| 0 <= k < sections.len() implies draft_of(
                                (#[trigger] sections@[k])@,
                            ) == parse_step(st, ls@[i as int]@, media_type@).drafts[k] by {
                                if k < before.len() {
                                    assert(sections@[k] == before@[k]);
                                }
                            }
                        },
                        None => {},
                    }
                    heading = h;
                    level = l;
                    update_counters(&mut counters, l);
                },
                None => {
                    let line = copy_range(&ls[i], 0, ls[i].len());
                    assert(line@ =~= ls@[i as int]@);
                    let ghost before = current;
                    current.push(line);
                    proof {
                        lemma_deep_view_push(before, current, line);
                    }
                },
            }
            i = i + 1;
        }
        assert(lv.take(ls.len() as int) =~= lv);
        let ghost st = parse_state(title@, media_type@, lv);
        if current.len() == 0 && sections.len() == 0 {
            let whole = copy_range(&text_c, 0, text_c.len());
            let ghost before = current;
            current.push(whole);
            proof {
                lemma_deep_view_push(before, current, whole);
                assert(whole@ =~= text@);
                assert(current.deep_view() =~= seq![text@]);
            }
        }
        let content = join_chars(&current, &['\n']);
        assert(['\n']@ =~= seq!['\n']);
        let ghost before = sections;
        match maybe_build_section(document_id, &heading, level, &counters, &content) {
            Some(section) => {
                sections.push(section);
                assert forall|k: int| 0 <= k < sections.len() implies draft_of(
                    (#[trigger] sections@[k])@,
                ) == spec_parse_drafts(title@, media_type@, text@)[k] by {
                    if k < before.len() {
                        assert(sections@[k] == before@[k]);
                    }
                }
            },
            None => {},
        }
        if sections.len() == 0 {
            let one: Vec<usize> = {
                let mut v = Vec::new();
                v.push(1);
                v
            };
            assert(one@ =~= seq![1usize]);
            sections.push(build_section(document_id, &title_c, 1, &one, &text_c));
        }
        let r = attach_parent_ids(sections);
        proof {
            let rv = views_of(r@);
            let sv = views_of(sections@);
            assert forall|k: int| 0 <= k < r.len() implies {
                &&& draft_of((#[trigger] r@[k])@) == spec_parse_drafts(title@, media_type@, text@)[k]
                &&& r@[k]@.document_id == document_id@
                &&& r@[k]@.chunk_ids.len() == 0
                &&& r@[k]@.id.len() == 36
                &&& r@[k]@.parent_id == spec_parent_of(rv, k)
            } by {
                assert(rv[k] == r@[k]@);
                assert(sv[k] == sections@[k]@);
                assert forall|m: int| 0 <= m < r.len() implies (#[trigger] rv[m]).level == sv[m].level
                    && rv[m].id == sv[m].id by {
                    assert(rv[m] == r@[m]@);
                    assert(sv[m] == sections@[m]@);
                }
                lemma_parent_same(rv, sv, k, k);
            }
            assert forall|k: int| 0 <= k < rv.len() implies {
                &&& draft_of(#[trigger] rv[k]) == spec_parse_drafts(title@, media_type@, text@)[k]
                &&& rv[k].document_id == document_id@
                &&& rv[k].chunk_ids.len() == 0
                &&& rv[k].id.len() == 36
                &&& rv[k].parent_id == spec_parent_of(rv, k)
            } by {
                assert(rv[k] == r@[k]@);
            }
        }
        r
    }
}

proof fn lemma_parent_same(a: Seq<SectionView>, b: Seq<SectionView>, i: int, j: int)
    requires
        a.len() == b.len(),
        0 <= j <= i < a.len(),
        forall|m: int| 0 <= m < a.len() ==> (#[trigger] a[m]).level == b[m].level && a[m].id == b[m].id,
    ensures
        spec_parent_of(a, i) == spec_parent_of(b, i),
{
    assert(a[i].level == b[i].level);
    lemma_nearest_shallower_same(a, b, i, i);
    lemma_nearest_shallower(a, i, i);
    let m = nearest_shallower(a, i, i);
    if m >= 0 {
        assert(a[m].id == b[m].id);
    }
}

proof fn lemma_nearest_shallower_same(a: Seq<SectionView>, b: Seq<SectionView>, i: int, j: int)
    requires
        a.len() == b.len(),
        0 <= j <= i < a.len(),
        forall|m: int| 0 <= m < a.len() ==> (#[trigger] a[m]).level == b[m].level && a[m].id == b[m].id,
    ensures
        nearest_shallower(a, i, j) == nearest_shallower(b, i, j),
    decreases j,
{
    assert(a[i].level == b[i].level);
    if j > 0 {
        assert(a[j - 1].level == b[j - 1].level);
        lemma_nearest_shallower_same(a, b, i, j - 1);
    }
}

} // verus!
