//! Text helpers: media type detection, titles, chunking, tokenization and
//! keyword extraction.
use vstd::prelude::*;

use crate::error::AppError;
use crate::utils::chars::{
    chars_of, contains, copy_range, eq_chars, lead_len, lemma_deep_view_push, lemma_lead_len,
    lemma_trail_len, lower, lower_chars, occurs_at, string_of, trail_len, trim, trim_bounds,
    spec_is_ascii_alphanumeric, spec_is_ascii_uppercase, spec_is_cjk, spec_is_whitespace,
    spec_lower_char, is_cjk,
    all_in, in_class, CharClass,
};
use crate::utils::paths::{
    path_extension, path_file_name, path_file_stem, spec_path_extension, spec_path_file_name,
    spec_path_file_stem,
};

verus! {

// ---------------------------------------------------------------------------
// Media types and titles
// ---------------------------------------------------------------------------

/// The media type that a lower-cased file extension stands for.
pub open spec fn media_type_for_extension(ext: Seq<char>) -> Option<Seq<char>> {
    if ext == "md"@ || ext == "markdown"@ {
        Some("text/markdown"@)
    } else if ext == "txt"@ {
        Some("text/plain"@)
    } else if ext == "pdf"@ {
        Some("application/pdf"@)
    } else {
        None
    }
}

/// What `detect_media_type` gives for a path: the media type of its
/// extension, compared case-insensitively, or an ingest error that names the
/// path (no extension) or the lower-cased extension (unsupported one).
pub open spec fn spec_detect_media_type(path: Seq<char>) -> Result<Seq<char>, Seq<char>> {
    match spec_path_extension(path) {
        None => Err("file has no extension: "@ + path),
        Some(ext) => match media_type_for_extension(lower(ext)) {
            Some(m) => Ok(m),
            None => Err("unsupported file extension: "@ + lower(ext)),
        },
    }
}

pub fn detect_media_type(path: &str) -> (r: Result<String, AppError>)
    ensures
        match spec_detect_media_type(path@) {
            Ok(m) => r matches Ok(t) && t@ == m,
            Err(msg) => r matches Err(AppError::Ingest(e)) && e@ == msg,
        },
{
    let ext = match path_extension(path) {
        Some(ext) => ext,
        None => {
            let mut msg = "file has no extension: ".to_owned();
            msg.append(path);
            return Err(AppError::Ingest(msg));
        },
    };
    let lowered = lower_chars(&chars_of(ext.as_str()));
    if eq_chars(&lowered, &chars_of("md")) || eq_chars(&lowered, &chars_of("markdown")) {
        Ok("text/markdown".to_owned())
    } else if eq_chars(&lowered, &chars_of("txt")) {
        Ok("text/plain".to_owned())
    } else if eq_chars(&lowered, &chars_of("pdf")) {
        Ok("application/pdf".to_owned())
    } else {
        let mut msg = "unsupported file extension: ".to_owned();
        msg.append(string_of(&lowered).as_str());
        Err(AppError::Ingest(msg))
    }
}

/// The title given to a document: the path's file stem, else its file name,
/// else `document`.
pub open spec fn spec_file_stem_or_name(path: Seq<char>) -> Seq<char> {
    match spec_path_file_stem(path) {
        Some(stem) => stem,
        None => match spec_path_file_name(path) {
            Some(name) => name,
            None => "document"@,
        },
    }
}

pub fn file_stem_or_name(path: &str) -> (r: String)
    ensures
        r@ == spec_file_stem_or_name(path@),
{
    match path_file_stem(path) {
        Some(stem) => stem,
        None => match path_file_name(path) {
            Some(name) => name,
            None => "document".to_owned(),
        },
    }
}

// ---------------------------------------------------------------------------
// Chunking
// ---------------------------------------------------------------------------

/// Where the window after one ending at `end` starts: `overlap` characters
/// back, but not before the text.
pub open spec fn next_start(end: int, overlap: int) -> int {
    if end >= overlap {
        end - overlap
    } else {
        0
    }
}

/// The chunks cut from `s` by windows of `size` characters starting at
/// `start`, each window starting `overlap` characters before the previous one
/// ended; each window is trimmed and blank ones are dropped.  (When `size` is
/// not larger than `overlap`, the windows only end when one reaches the end of
/// the text; `chunk_text` admits that case only for texts of at most `size`
/// characters, which one window covers.)
pub open spec fn chunks_from(s: Seq<char>, size: int, overlap: int, start: int) -> Seq<Seq<char>>
    decreases s.len() - start,
{
    if start < 0 || start >= s.len() || size < 0 || overlap < 0 {
        seq![]
    } else {
        let end = if start + size < s.len() {
            start + size
        } else {
            s.len() as int
        };
        let piece = trim(s.subrange(start, end));
        let rest = if end >= s.len() || size <= overlap {
            seq![]
        } else {
            chunks_from(s, size, overlap, next_start(end, overlap))
        };
        if piece.len() > 0 {
            seq![piece] + rest
        } else {
            rest
        }
    }
}

/// `chunk_text`'s result on the characters of a text.
pub open spec fn spec_chunk_text(s: Seq<char>, size: int, overlap: int) -> Seq<Seq<char>> {
    chunks_from(s, size, overlap, 0)
}

proof fn lemma_trim_within(s: Seq<char>)
    ensures
        trim(s).len() <= s.len(),
        contains(s, trim(s)),
{
    let k = CharClass::Whitespace;
    lemma_lead_len(s, k);
    let a = s.skip(lead_len(s, k) as int);
    lemma_trail_len(a, k);
    let t = trim(s);
    assert(s.subrange(lead_len(s, k) as int, (lead_len(s, k) + t.len()) as int) =~= t);
    assert(occurs_at(s, t, lead_len(s, k) as int));
}

proof fn lemma_contains_sub(s: Seq<char>, a: int, b: int, t: Seq<char>)
    requires
        0 <= a <= b <= s.len(),
        contains(s.subrange(a, b), t),
    ensures
        contains(s, t),
{
    let i = choose|i: int| occurs_at(s.subrange(a, b), t, i);
    assert(s.subrange(a + i, a + i + t.len()) =~= s.subrange(a, b).subrange(i, i + t.len()));
    assert(occurs_at(s, t, a + i));
}

/// Every chunk is non-empty, at most `size` characters long, and a piece of
/// the text.
pub proof fn lemma_chunks_from_shape(s: Seq<char>, size: int, overlap: int, start: int)
    ensures
        forall|i: int|
            0 <= i < chunks_from(s, size, overlap, start).len() ==> {
                let c = #[trigger] chunks_from(s, size, overlap, start)[i];
                &&& 0 < c.len() <= size
                &&& contains(s, c)
            },
    decreases s.len() - start,
{
    if start < 0 || start >= s.len() || size < 0 || overlap < 0 {
    } else {
        let end = if start + size < s.len() {
            start + size
        } else {
            s.len() as int
        };
        let sub = s.subrange(start, end);
        lemma_trim_within(sub);
        lemma_contains_sub(s, start, end, trim(sub));
        let rest = if end >= s.len() || size <= overlap {
            seq![]
        } else {
            chunks_from(s, size, overlap, next_start(end, overlap))
        };
        if end < s.len() && size > overlap {
            lemma_chunks_from_shape(s, size, overlap, next_start(end, overlap));
        }
        let all = chunks_from(s, size, overlap, start);
        assert forall|i: int| 0 <= i < all.len() implies {
            let c = #[trigger] all[i];
            &&& 0 < c.len() <= size
            &&& contains(s, c)
        } by {
            if trim(sub).len() > 0 {
                if i > 0 {
                    assert(all[i] == rest[i - 1]);
                }
            } else {
                assert(all[i] == rest[i]);
            }
        }
    }
}

/// Chunk `c` stands in `s` at position `p` and covers index `i`.
pub open spec fn covers_at(s: Seq<char>, c: Seq<char>, p: int, i: int) -> bool {
    occurs_at(s, c, p) && p <= i < p + c.len()
}

proof fn lemma_chunks_from_cover(s: Seq<char>, size: int, overlap: int, start: int, i: int)
    requires
        0 <= overlap,
        0 <= size,
        overlap < size || s.len() <= size,
        0 <= start <= i < s.len(),
        !spec_is_whitespace(s[i]),
    ensures
        exists|j: int, p: int|
            0 <= j < chunks_from(s, size, overlap, start).len() && #[trigger] covers_at(
                s,
                chunks_from(s, size, overlap, start)[j],
                p,
                i,
            ),
    decreases s.len() - start,
{
    let end = if start + size < s.len() {
        start + size
    } else {
        s.len() as int
    };
    let k = CharClass::Whitespace;
    let sub = s.subrange(start, end);
    let piece = trim(sub);
    let rest = if end >= s.len() || size <= overlap {
        seq![]
    } else {
        chunks_from(s, size, overlap, next_start(end, overlap))
    };
    let all = chunks_from(s, size, overlap, start);
    if i < end {
        lemma_lead_len(sub, k);
        let l = lead_len(sub, k) as int;
        let a = sub.skip(l);
        lemma_trail_len(a, k);
        let t = trail_len(a, k) as int;
        let q = i - start;
        assert(sub[q] == s[i]);
        assert(q >= l);
        assert(a[q - l] == sub[q]);
        assert(q - l < a.len() - t);
        assert(piece == a.take(a.len() - t));
        assert(piece.len() > 0);
        assert(all[0] == piece);
        assert(s.subrange(start + l, start + l + piece.len()) =~= piece);
        assert(covers_at(s, all[0], start + l, i));
    } else {
        assert(end < s.len());
        assert(size > overlap);
        let n = next_start(end, overlap);
        lemma_chunks_from_cover(s, size, overlap, n, i);
        let (j, p) = choose|j: int, p: int|
            0 <= j < rest.len() && #[trigger] covers_at(s, rest[j], p, i);
        if piece.len() > 0 {
            assert(all[j + 1] == rest[j]);
            assert(covers_at(s, all[j + 1], p, i));
        } else {
            assert(all[j] == rest[j]);
        }
    }
}

/// The chunks cover the text: every character that is not whitespace lies
/// in some chunk, which stands in the text at a position covering it (so in
/// particular the text's last non-whitespace character is in the last
/// window).
pub proof fn lemma_chunks_cover_text(s: Seq<char>, size: usize, overlap: usize, i: int)
    requires
        overlap < size || s.len() <= size,
        0 <= i < s.len(),
        !spec_is_whitespace(s[i]),
    ensures
        exists|j: int, p: int|
            0 <= j < spec_chunk_text(s, size as int, overlap as int).len() && #[trigger] covers_at(
                s,
                spec_chunk_text(s, size as int, overlap as int)[j],
                p,
                i,
            ),
{
    lemma_chunks_from_cover(s, size as int, overlap as int, 0, i);
    let cs = chunks_from(s, size as int, overlap as int, 0);
    let (j, p) = choose|j: int, p: int| 0 <= j < cs.len() && #[trigger] covers_at(s, cs[j], p, i);
    assert(spec_chunk_text(s, size as int, overlap as int) == cs);
    assert(covers_at(s, spec_chunk_text(s, size as int, overlap as int)[j], p, i));
}

/// Splits a text into overlapping windows of `chunk_size` characters; each
/// window starts `overlap` characters before the previous one ended, is
/// trimmed, and is kept only when something remains.  Windows must advance
/// (`overlap < chunk_size`) unless one window covers the whole text.
pub fn chunk_text(text: &str, chunk_size: usize, overlap: usize) -> (r: Vec<String>)
    requires
        overlap < chunk_size || text@.len() <= chunk_size,
    ensures
        r.deep_view() == spec_chunk_text(text@, chunk_size as int, overlap as int),
        forall|i: int|
            0 <= i < r.len() ==> {
                &&& 0 < (#[trigger] r[i])@.len() <= chunk_size
                &&& contains(text@, r[i]@)
            },
        forall|i: int|
            0 <= i < text@.len() && !spec_is_whitespace(#[trigger] text@[i]) ==> exists|j: int, p: int|
                0 <= j < r.len() && #[trigger] covers_at(text@, r[j]@, p, i),
{
    let chars = chars_of(text);
    let pieces = chunk_chars(&chars, chunk_size, overlap);
    let r = strings_of(&pieces);
    proof {
        lemma_chunks_from_shape(text@, chunk_size as int, overlap as int, 0);
        assert forall|i: int| 0 <= i < r.len() implies #[trigger] r[i]@ == r.deep_view()[i] by {}
        assert forall|i: int|
            0 <= i < text@.len() && !spec_is_whitespace(#[trigger] text@[i]) implies exists|j: int, p: int|
                0 <= j < r.len() && #[trigger] covers_at(text@, r[j]@, p, i) by {
            lemma_chunks_cover_text(text@, chunk_size, overlap, i);
            let cs = spec_chunk_text(text@, chunk_size as int, overlap as int);
            let (j, p) = choose|j: int, p: int| 0 <= j < cs.len() && #[trigger] covers_at(text@, cs[j], p, i);
            assert(r[j]@ == r.deep_view()[j]);
            assert(covers_at(text@, r[j]@, p, i));
        }
    }
    r
}

pub fn chunk_chars(chars: &[char], chunk_size: usize, overlap: usize) -> (r: Vec<Vec<char>>)
    requires
        overlap < chunk_size || chars@.len() <= chunk_size,
    ensures
        r.deep_view() == spec_chunk_text(chars@, chunk_size as int, overlap as int),
{
    let n = chars.len();
    let mut chunks: Vec<Vec<char>> = Vec::new();
    if n == 0 {
        assert(chunks.deep_view() =~= Seq::<Seq<char>>::empty());
        return chunks;
    }
    let mut start: usize = 0;
    loop
        invariant
            n == chars.len(),
            start < n,
            overlap < chunk_size || n <= chunk_size,
            chunks.deep_view() + chunks_from(chars@, chunk_size as int, overlap as int, start as int)
                == spec_chunk_text(chars@, chunk_size as int, overlap as int),
        decreases n - start,
    {
        let end = if chunk_size < n - start {
            start + chunk_size
        } else {
            n
        };
        let window = copy_range(chars, start, end);
        let (a, b) = trim_bounds(&window, CharClass::Whitespace);
        let piece = copy_range(&window, a, b);
        let ghost old_v = chunks;
        let ghost old_c = chunks.deep_view();
        if b > a {
            chunks.push(piece);
            proof {
                lemma_deep_view_push(old_v, chunks, piece);
            }
        }
        if end == n {
            assert(chunks.deep_view() =~= spec_chunk_text(chars@, chunk_size as int, overlap as int));
            return chunks;
        }
        let next = if end >= overlap {
            end - overlap
        } else {
            0
        };
        start = next;
    }
}

pub fn strings_of(v: &Vec<Vec<char>>) -> (r: Vec<String>)
    ensures
        r.deep_view() == v.deep_view(),
{
    let mut r: Vec<String> = Vec::new();
    let mut i: usize = 0;
    while i < v.len()
        invariant
            i <= v.len(),
            r.len() == i,
            r.deep_view() == v.deep_view().take(i as int),
        decreases v.len() - i,
    {
        let t = string_of(&v[i]);
        r.push(t);
        proof {
            assert(v@[i as int].deep_view() =~= v@[i as int]@);
            assert(r@[i as int].deep_view() == v@[i as int].deep_view());
        }
        i = i + 1;
        assert(r.deep_view() =~= v.deep_view().take(i as int));
    }
    assert(v.deep_view().take(v.len() as int) =~= v.deep_view());
    r
}

pub fn char_vecs_of(v: &Vec<String>) -> (r: Vec<Vec<char>>)
    ensures
        r.deep_view() == v.deep_view(),
{
    let mut r: Vec<Vec<char>> = Vec::new();
    let mut i: usize = 0;
    while i < v.len()
        invariant
            i <= v.len(),
            r.len() == i,
            r.deep_view() == v.deep_view().take(i as int),
        decreases v.len() - i,
    {
        let t = chars_of(v[i].as_str());
        r.push(t);
        proof {
            assert(r@[i as int].deep_view() =~= r@[i as int]@);
            assert(r@[i as int].deep_view() == v@[i as int].deep_view());
        }
        i = i + 1;
        assert(r.deep_view() =~= v.deep_view().take(i as int));
    }
    assert(v.deep_view().take(v.len() as int) =~= v.deep_view());
    r
}

// ---------------------------------------------------------------------------
// Tokenization
// ---------------------------------------------------------------------------

/// The three kinds of characters the tokenizer tells apart: ASCII letters and
/// digits (1), CJK ideographs (2), and everything else (0).
pub open spec fn char_kind(c: char) -> int {
    if spec_is_ascii_alphanumeric(c) {
        1
    } else if spec_is_cjk(c) {
        2
    } else {
        0
    }
}

fn kind_of(c: char) -> (r: u8)
    ensures
        r as int == char_kind(c),
{
    if ('A' <= c && c <= 'Z') || ('a' <= c && c <= 'z') || ('0' <= c && c <= '9') {
        1
    } else if is_cjk(c) {
        2
    } else {
        0
    }
}

/// Where the run of kind `k` that continues at `j` ends.
pub open spec fn run_end(s: Seq<char>, k: int, j: int) -> int
    decreases s.len() - j,
{
    if j < 0 || j >= s.len() {
        s.len() as int
    } else if char_kind(s[j]) != k {
        j
    } else {
        run_end(s, k, j + 1)
    }
}

pub proof fn lemma_run_end_bounds(s: Seq<char>, k: int, j: int)
    requires
        0 <= j <= s.len(),
    ensures
        j <= run_end(s, k, j) <= s.len(),
    decreases s.len() - j,
{
    if j < s.len() && char_kind(s[j]) == k {
        lemma_run_end_bounds(s, k, j + 1);
    }
}

proof fn lemma_run_end_unique(s: Seq<char>, k: int, j: int, e: int)
    requires
        0 <= j <= e <= s.len(),
        forall|m: int| j <= m < e ==> char_kind(#[trigger] s[m]) == k,
        e == s.len() || char_kind(s[e]) != k,
    ensures
        run_end(s, k, j) == e,
    decreases e - j,
{
    if j < e {
        lemma_run_end_unique(s, k, j + 1, e);
    }
}

/// The English words that are never emitted as tokens.
pub open spec fn is_stop_word(t: Seq<char>) -> bool {
    ||| t == "a"@
    ||| t == "an"@
    ||| t == "and"@
    ||| t == "are"@
    ||| t == "as"@
    ||| t == "at"@
    ||| t == "be"@
    ||| t == "by"@
    ||| t == "for"@
    ||| t == "from"@
    ||| t == "in"@
    ||| t == "into"@
    ||| t == "is"@
    ||| t == "it"@
    ||| t == "of"@
    ||| t == "on"@
    ||| t == "or"@
    ||| t == "that"@
    ||| t == "the"@
    ||| t == "this"@
    ||| t == "to"@
    ||| t == "with"@
    ||| t == "what"@
    ||| t == "which"@
}

fn stop_word(t: &[char]) -> (r: bool)
    ensures
        r == is_stop_word(t@),
{
    eq_chars(t, &chars_of("a")) || eq_chars(t, &chars_of("an")) || eq_chars(t, &chars_of("and"))
        || eq_chars(t, &chars_of("are")) || eq_chars(t, &chars_of("as")) || eq_chars(
        t,
        &chars_of("at"),
    ) || eq_chars(t, &chars_of("be")) || eq_chars(t, &chars_of("by")) || eq_chars(
        t,
        &chars_of("for"),
    ) || eq_chars(t, &chars_of("from")) || eq_chars(t, &chars_of("in")) || eq_chars(
        t,
        &chars_of("into"),
    ) || eq_chars(t, &chars_of("is")) || eq_chars(t, &chars_of("it")) || eq_chars(
        t,
        &chars_of("of"),
    ) || eq_chars(t, &chars_of("on")) || eq_chars(t, &chars_of("or")) || eq_chars(
        t,
        &chars_of("that"),
    ) || eq_chars(t, &chars_of("the")) || eq_chars(t, &chars_of("this")) || eq_chars(
        t,
        &chars_of("to"),
    ) || eq_chars(t, &chars_of("with")) || eq_chars(t, &chars_of("what")) || eq_chars(
        t,
        &chars_of("which"),
    )
}

/// The tokens of one maximal run of characters of kind `k`: an ASCII run
/// gives its lower-cased form when it has at least two characters and is not
/// a stop word; a CJK run gives itself when it is one character long, else
/// every pair of neighbouring characters; other runs give nothing.
pub open spec fn run_tokens(run: Seq<char>, k: int) -> Seq<Seq<char>> {
    if k == 1 {
        let t = lower(run);
        if t.len() >= 2 && !is_stop_word(t) {
            seq![t]
        } else {
            seq![]
        }
    } else if k == 2 {
        if run.len() == 1 {
            seq![run]
        } else {
            Seq::new((run.len() - 1) as nat, |i: int| run.subrange(i, i + 2))
        }
    } else {
        seq![]
    }
}

/// The tokens of `s` from index `i` on, run by run.
pub open spec fn tokens_from(s: Seq<char>, i: int) -> Seq<Seq<char>>
    decreases s.len() - i,
{
    if i < 0 || i >= s.len() {
        seq![]
    } else {
        let k = char_kind(s[i]);
        let e = run_end(s, k, i + 1);
        proof {
            lemma_run_end_bounds(s, k, i + 1);
        }
        run_tokens(s.subrange(i, e), k) + tokens_from(s, e)
    }
}

/// What a retrieval token looks like: a term of at least two ASCII letters
/// or digits, none of them upper case, that is not a stop word; or one or two
/// CJK ideographs.
pub open spec fn is_token_shape(t: Seq<char>) -> bool {
    ||| {
        &&& t.len() >= 2
        &&& all_in(t, CharClass::AsciiAlphanumeric)
        &&& forall|i: int| 0 <= i < t.len() ==> !spec_is_ascii_uppercase(#[trigger] t[i])
        &&& !is_stop_word(t)
    }
    ||| 1 <= t.len() <= 2 && all_in(t, CharClass::Cjk)
}

proof fn lemma_run_kind(s: Seq<char>, k: int, j: int)
    requires
        0 <= j <= s.len(),
    ensures
        forall|m: int| j <= m < run_end(s, k, j) ==> char_kind(#[trigger] s[m]) == k,
    decreases s.len() - j,
{
    if j < s.len() && char_kind(s[j]) == k {
        lemma_run_kind(s, k, j + 1);
    }
}

proof fn lemma_run_tokens_shape(run: Seq<char>, k: int)
    requires
        run.len() >= 1,
        forall|m: int| 0 <= m < run.len() ==> char_kind(#[trigger] run[m]) == k,
    ensures
        forall|i: int| 0 <= i < run_tokens(run, k).len() ==> is_token_shape(#[trigger] run_tokens(run, k)[i]),
{
    if k == 1 {
        let t = lower(run);
        assert forall|i: int| 0 <= i < t.len() implies in_class(#[trigger] t[i], CharClass::AsciiAlphanumeric)
            && !spec_is_ascii_uppercase(t[i]) by {
            assert(char_kind(run[i]) == 1);
            assert(t[i] == spec_lower_char(run[i]));
        }
    } else if k == 2 {
        if run.len() > 1 {
            let ts = run_tokens(run, k);
            assert forall|i: int| 0 <= i < ts.len() implies is_token_shape(#[trigger] ts[i]) by {
                let p = run.subrange(i, i + 2);
                assert(ts[i] == p);
                assert forall|m: int| 0 <= m < p.len() implies in_class(#[trigger] p[m], CharClass::Cjk) by {
                    assert(p[m] == run[i + m]);
                    assert(char_kind(run[i + m]) == 2);
                }
            }
        } else {
            assert(char_kind(run[0]) == 2);
        }
    }
}

proof fn lemma_tokens_from_shape(s: Seq<char>, i: int)
    requires
        0 <= i,
    ensures
        forall|j: int| 0 <= j < tokens_from(s, i).len() ==> is_token_shape(#[trigger] tokens_from(s, i)[j]),
    decreases s.len() - i,
{
    if i < s.len() {
        let k = char_kind(s[i]);
        let e = run_end(s, k, i + 1);
        lemma_run_end_bounds(s, k, i + 1);
        lemma_run_kind(s, k, i + 1);
        let run = s.subrange(i, e);
        assert forall|m: int| 0 <= m < run.len() implies char_kind(#[trigger] run[m]) == k by {
            assert(run[m] == s[i + m]);
        }
        lemma_run_tokens_shape(run, k);
        lemma_tokens_from_shape(s, e);
        let a = run_tokens(run, k);
        let b = tokens_from(s, e);
        assert forall|j: int| 0 <= j < (a + b).len() implies is_token_shape(#[trigger] (a + b)[j]) by {
            if j < a.len() {
                assert((a + b)[j] == a[j]);
            } else {
                assert((a + b)[j] == b[j - a.len()]);
            }
        }
    }
}

/// A character of kind 0 (neither ASCII letter or digit nor CJK) yields no
/// token: the tokens from it on are those from the next character on.
proof fn lemma_skip_blank(s: Seq<char>, i: int)
    requires
        0 <= i < s.len(),
        char_kind(s[i]) == 0,
    ensures
        tokens_from(s, i) == tokens_from(s, i + 1),
{
    lemma_run_end_bounds(s, 0, i + 1);
    assert(run_tokens(s.subrange(i, run_end(s, 0, i + 1)), 0) =~= Seq::<Seq<char>>::empty());
    if i + 1 < s.len() && char_kind(s[i + 1]) == 0 {
        lemma_run_end_bounds(s, 0, i + 2);
        assert(run_tokens(s.subrange(i + 1, run_end(s, 0, i + 2)), 0) =~= Seq::<Seq<char>>::empty());
        assert(tokens_from(s, i) =~= tokens_from(s, run_end(s, 0, i + 1)));
        assert(tokens_from(s, i + 1) =~= tokens_from(s, run_end(s, 0, i + 2)));
    } else {
        assert(run_end(s, 0, i + 1) == i + 1);
        assert(tokens_from(s, i) =~= tokens_from(s, i + 1));
    }
}

proof fn lemma_run_end_suffix(s: Seq<char>, t: Seq<char>, off: int, k: int, j: int)
    requires
        0 <= off,
        off + t.len() == s.len(),
        forall|m: int| 0 <= m < t.len() ==> s[off + m] == #[trigger] t[m],
        0 <= j <= t.len(),
    ensures
        run_end(s, k, off + j) == off + run_end(t, k, j),
    decreases t.len() - j,
{
    if j < t.len() {
        assert(s[off + j] == t[j]);
        if char_kind(t[j]) == k {
            lemma_run_end_suffix(s, t, off, k, j + 1);
        }
    }
}

/// The tokens of `s` from `off + j` on are those of its suffix `t` from `j` on.
proof fn lemma_tokens_from_suffix(s: Seq<char>, t: Seq<char>, off: int, j: int)
    requires
        0 <= off,
        off + t.len() == s.len(),
        forall|m: int| 0 <= m < t.len() ==> s[off + m] == #[trigger] t[m],
        0 <= j,
    ensures
        tokens_from(s, off + j) == tokens_from(t, j),
    decreases t.len() - j,
{
    if j < t.len() {
        assert(s[off + j] == t[j]);
        let k = char_kind(t[j]);
        lemma_run_end_suffix(s, t, off, k, j + 1);
        lemma_run_end_bounds(t, k, j + 1);
        let e = run_end(t, k, j + 1);
        assert(s.subrange(off + j, off + e) =~= t.subrange(j, e));
        lemma_tokens_from_suffix(s, t, off, e);
    }
}

proof fn lemma_run_end_prefix(s: Seq<char>, a: Seq<char>, k: int, j: int)
    requires
        a.len() < s.len(),
        forall|m: int| 0 <= m < a.len() ==> s[m] == #[trigger] a[m],
        char_kind(s[a.len() as int]) != k,
        0 <= j <= a.len(),
    ensures
        run_end(s, k, j) == run_end(a, k, j),
    decreases a.len() - j,
{
    if j < a.len() {
        assert(s[j] == a[j]);
        if char_kind(a[j]) == k {
            lemma_run_end_prefix(s, a, k, j + 1);
        }
    }
}

/// When `a` is followed in `s` by a character of kind 0, the tokens of `s`
/// from `i` on are those of `a` from `i` on, then those of `s` from the end
/// of `a` on.
proof fn lemma_tokens_from_prefix(s: Seq<char>, a: Seq<char>, i: int)
    requires
        a.len() < s.len(),
        forall|m: int| 0 <= m < a.len() ==> s[m] == #[trigger] a[m],
        char_kind(s[a.len() as int]) == 0,
        0 <= i <= a.len(),
    ensures
        tokens_from(s, i) == tokens_from(a, i) + tokens_from(s, a.len() as int),
    decreases a.len() - i,
{
    if i == a.len() {
        assert(tokens_from(a, i) =~= Seq::<Seq<char>>::empty());
        assert(tokens_from(s, i) =~= tokens_from(a, i) + tokens_from(s, a.len() as int));
    } else {
        assert(s[i] == a[i]);
        let k = char_kind(a[i]);
        if k == 0 {
            lemma_skip_blank(s, i);
            lemma_skip_blank(a, i);
            lemma_tokens_from_prefix(s, a, i + 1);
        } else {
            lemma_run_end_prefix(s, a, k, i + 1);
            lemma_run_end_bounds(a, k, i + 1);
            let e = run_end(a, k, i + 1);
            assert(s.subrange(i, e) =~= a.subrange(i, e));
            lemma_tokens_from_prefix(s, a, e);
            let r = run_tokens(a.subrange(i, e), k);
            assert(tokens_from(s, i) == r + tokens_from(s, e));
            assert(tokens_from(a, i) == r + tokens_from(a, e));
            assert(r + (tokens_from(a, e) + tokens_from(s, a.len() as int)) =~= (r + tokens_from(a, e))
                + tokens_from(s, a.len() as int));
        }
    }
}

/// A text made only of ASCII letters and digits is one term: its tokens are
/// its lower-cased form when that has at least two characters and is not a
/// stop word, and nothing otherwise.  Digits count like letters.
pub proof fn lemma_tokenize_ascii_term(t: Seq<char>)
    requires
        t.len() > 0,
        forall|i: int| 0 <= i < t.len() ==> spec_is_ascii_alphanumeric(#[trigger] t[i]),
    ensures
        spec_tokenize(t) == if t.len() >= 2 && !is_stop_word(lower(t)) {
            seq![lower(t)]
        } else {
            Seq::<Seq<char>>::empty()
        },
{
    assert(char_kind(t[0]) == 1);
    assert forall|m: int| 1 <= m < t.len() implies char_kind(#[trigger] t[m]) == 1 by {}
    lemma_run_end_unique(t, 1, 1, t.len() as int);
    assert(t.subrange(0, t.len() as int) =~= t);
    assert(tokens_from(t, t.len() as int) =~= Seq::<Seq<char>>::empty());
    assert(lower(t).len() == t.len());
    assert(spec_tokenize(t) =~= run_tokens(t, 1) + Seq::<Seq<char>>::empty());
}

/// A text made only of CJK ideographs gives one token when it is one
/// character long, else each pair of neighbouring characters, in order.
pub proof fn lemma_tokenize_cjk_run(t: Seq<char>)
    requires
        t.len() > 0,
        forall|i: int| 0 <= i < t.len() ==> spec_is_cjk(#[trigger] t[i]),
    ensures
        t.len() == 1 ==> spec_tokenize(t) == seq![t],
        t.len() > 1 ==> spec_tokenize(t).len() == t.len() - 1 && forall|i: int|
            0 <= i < t.len() - 1 ==> #[trigger] spec_tokenize(t)[i] == seq![t[i], t[i + 1]],
{
    assert(char_kind(t[0]) == 2);
    assert forall|m: int| 1 <= m < t.len() implies char_kind(#[trigger] t[m]) == 2 by {
        assert(spec_is_cjk(t[m]));
    }
    lemma_run_end_unique(t, 2, 1, t.len() as int);
    assert(t.subrange(0, t.len() as int) =~= t);
    assert(tokens_from(t, t.len() as int) =~= Seq::<Seq<char>>::empty());
    assert(spec_tokenize(t) =~= run_tokens(t, 2));
    if t.len() > 1 {
        assert forall|i: int| 0 <= i < t.len() - 1 implies #[trigger] spec_tokenize(t)[i] == seq![
            t[i],
            t[i + 1],
        ] by {
            assert(t.subrange(i, i + 2) =~= seq![t[i], t[i + 1]]);
        }
    }
}

/// A space ends every ASCII term and CJK run, so no token spans it: the
/// tokens of two texts joined by a space are the tokens of the first, then
/// those of the second.
pub proof fn lemma_tokenize_join(a: Seq<char>, b: Seq<char>)
    ensures
        spec_tokenize(a + seq![' '] + b) == spec_tokenize(a) + spec_tokenize(b),
{
    let s = a + seq![' '] + b;
    assert(s[a.len() as int] == ' ');
    assert(char_kind(' ') == 0);
    assert forall|m: int| 0 <= m < a.len() implies s[m] == #[trigger] a[m] by {}
    lemma_tokens_from_prefix(s, a, 0);
    lemma_skip_blank(s, a.len() as int);
    assert forall|m: int| 0 <= m < b.len() implies s[a.len() + 1 + m] == #[trigger] b[m] by {}
    lemma_tokens_from_suffix(s, b, (a.len() + 1) as int, 0);
}

/// Every token of a text is an ASCII term or a CJK unigram or bigram (see
/// `is_token_shape`).
pub proof fn lemma_token_shape(s: Seq<char>)
    ensures
        forall|j: int| 0 <= j < spec_tokenize(s).len() ==> is_token_shape(#[trigger] spec_tokenize(s)[j]),
{
    lemma_tokens_from_shape(s, 0);
}

/// The tokens of a text: `s` cut into maximal runs of ASCII letters and
/// digits, of CJK ideographs, and of other characters, each run contributing
/// `run_tokens`, in order.
pub open spec fn spec_tokenize(s: Seq<char>) -> Seq<Seq<char>> {
    tokens_from(s, 0)
}

fn append_all(out: &mut Vec<Vec<char>>, extra: Vec<Vec<char>>)
    ensures
        final(out).deep_view() == old(out).deep_view() + extra.deep_view(),
{
    let mut i: usize = 0;
    while i < extra.len()
        invariant
            i <= extra.len(),
            out.deep_view() == old(out).deep_view() + extra.deep_view().take(i as int),
        decreases extra.len() - i,
    {
        let ghost before = *out;
        let t = copy_range(&extra[i], 0, extra[i].len());
        assert(t@ =~= extra@[i as int]@);
        out.push(t);
        proof {
            lemma_deep_view_push(before, *out, t);
            assert(extra@[i as int].deep_view() =~= extra@[i as int]@);
            assert(extra.deep_view().take(i + 1) =~= extra.deep_view().take(i as int).push(
                extra@[i as int]@,
            ));
        }
        i = i + 1;
    }
    assert(extra.deep_view().take(extra.len() as int) =~= extra.deep_view());
}

fn tokens_of_run(run: &[char], k: u8) -> (r: Vec<Vec<char>>)
    requires
        run@.len() > 0,
    ensures
        r.deep_view() == run_tokens(run@, k as int),
{
    let mut r: Vec<Vec<char>> = Vec::new();
    if k == 1 {
        let t = lower_chars(run);
        if t.len() >= 2 && !stop_word(&t) {
            let ghost before = r;
            r.push(t);
            proof {
                lemma_deep_view_push(before, r, t);
            }
            assert(r.deep_view() =~= seq![t@]);
        } else {
            assert(r.deep_view() =~= Seq::<Seq<char>>::empty());
        }
    } else if k == 2 {
        if run.len() == 1 {
            let t = copy_range(run, 0, 1);
            let ghost before = r;
            r.push(t);
            proof {
                lemma_deep_view_push(before, r, t);
            }
            assert(t@ =~= run@);
            assert(r.deep_view() =~= seq![run@]);
        } else {
            let mut i: usize = 0;
            while i + 1 < run.len()
                invariant
                    run@.len() >= 2,
                    i + 1 <= run@.len(),
                    r.deep_view() =~= Seq::new(i as nat, |j: int| run@.subrange(j, j + 2)),
                decreases run.len() - i,
            {
                let ghost before = r;
                let t = copy_range(run, i, i + 2);
                r.push(t);
                proof {
                    lemma_deep_view_push(before, r, t);
                }
                i = i + 1;
                assert(r.deep_view() =~= Seq::new(i as nat, |j: int| run@.subrange(j, j + 2)));
            }
        }
    } else {
        assert(r.deep_view() =~= Seq::<Seq<char>>::empty());
    }
    r
}

pub fn tokenize_chars(s: &[char]) -> (r: Vec<Vec<char>>)
    ensures
        r.deep_view() == spec_tokenize(s@),
{
    let n = s.len();
    let mut out: Vec<Vec<char>> = Vec::new();
    let mut i: usize = 0;
    while i < n
        invariant
            n == s.len(),
            i <= n,
            out.deep_view() + tokens_from(s@, i as int) == spec_tokenize(s@),
        decreases n - i,
    {
        let k = kind_of(s[i]);
        let mut e = i + 1;
        while e < n && kind_of(s[e]) == k
            invariant
                n == s.len(),
                i < e <= n,
                k as int == char_kind(s@[i as int]),
                forall|m: int| i <= m < e ==> char_kind(#[trigger] s@[m]) == k as int,
            decreases n - e,
        {
            e = e + 1;
        }
        proof {
            lemma_run_end_unique(s@, k as int, i + 1, e as int);
        }
        let run = copy_range(s, i, e);
        let toks = tokens_of_run(&run, k);
        let ghost before = out.deep_view();
        append_all(&mut out, toks);
        assert(before + tokens_from(s@, i as int) =~= out.deep_view() + tokens_from(
            s@,
            e as int,
        ));
        i = e;
    }
    assert(tokens_from(s@, i as int) =~= Seq::<Seq<char>>::empty());
    assert(out.deep_view() + Seq::<Seq<char>>::empty() =~= out.deep_view());
    out
}

/// Splits text into retrieval tokens: lower-cased ASCII terms of two or more
/// characters that are not stop words, and CJK bigrams (or a lone CJK
/// character), in the order they occur.
pub fn tokenize(text: &str) -> (r: Vec<String>)
    ensures
        r.deep_view() == spec_tokenize(text@),
{
    strings_of(&tokenize_chars(&chars_of(text)))
}

pub fn text_token_count(text: &str) -> (r: usize)
    ensures
        r == spec_tokenize(text@).len(),
{
    tokenize_chars(&chars_of(text)).len()
}

// ---------------------------------------------------------------------------
// Keywords
// ---------------------------------------------------------------------------

/// Number of times `t` occurs in `toks`.
pub open spec fn occurrences(toks: Seq<Seq<char>>, t: Seq<char>) -> nat
    decreases toks.len(),
{
    if toks.len() == 0 {
        0
    } else {
        occurrences(toks.drop_last(), t) + if toks.last() == t {
            1nat
        } else {
            0nat
        }
    }
}

proof fn lemma_occurrences_le(toks: Seq<Seq<char>>, t: Seq<char>)
    ensures
        occurrences(toks, t) <= toks.len(),
    decreases toks.len(),
{
    if toks.len() > 0 {
        lemma_occurrences_le(toks.drop_last(), t);
    }
}

/// Lexicographic order on character sequences by code point, which is the
/// order of `String`'s `Ord` (byte order of UTF-8).
pub open spec fn lex_lt(a: Seq<char>, b: Seq<char>) -> bool
    decreases a.len(),
{
    if a.len() == 0 {
        b.len() > 0
    } else if b.len() == 0 {
        false
    } else if a[0] < b[0] {
        true
    } else if a[0] == b[0] {
        lex_lt(a.drop_first(), b.drop_first())
    } else {
        false
    }
}

proof fn lemma_lex_irreflexive(a: Seq<char>)
    ensures
        !lex_lt(a, a),
    decreases a.len(),
{
    if a.len() > 0 {
        lemma_lex_irreflexive(a.drop_first());
    }
}

proof fn lemma_lex_total(a: Seq<char>, b: Seq<char>)
    requires
        a != b,
    ensures
        lex_lt(a, b) || lex_lt(b, a),
    decreases a.len(),
{
    if a.len() > 0 && b.len() > 0 && a[0] == b[0] {
        if a.drop_first() == b.drop_first() {
            assert(a =~= seq![a[0]] + a.drop_first());
            assert(b =~= seq![b[0]] + b.drop_first());
        }
        lemma_lex_total(a.drop_first(), b.drop_first());
    } else if a.len() > 0 && b.len() > 0 {
    } else if a.len() == 0 && b.len() == 0 {
        assert(a =~= b);
    }
}

proof fn lemma_lex_transitive(a: Seq<char>, b: Seq<char>, c: Seq<char>)
    requires
        lex_lt(a, b),
        lex_lt(b, c),
    ensures
        lex_lt(a, c),
    decreases a.len(),
{
    if a.len() > 0 && b.len() > 0 && c.len() > 0 && a[0] == b[0] && b[0] == c[0] {
        lemma_lex_transitive(a.drop_first(), b.drop_first(), c.drop_first());
    }
}

fn lex_less(a: &[char], b: &[char]) -> (r: bool)
    ensures
        r == lex_lt(a@, b@),
{
    let mut i: usize = 0;
    assert(a@.skip(0) =~= a@);
    assert(b@.skip(0) =~= b@);
    while i < a.len() && i < b.len() && a[i] == b[i]
        invariant
            i <= a.len(),
            i <= b.len(),
            lex_lt(a@, b@) == lex_lt(a@.skip(i as int), b@.skip(i as int)),
        decreases a.len() - i,
    {
        assert(a@.skip(i as int).drop_first() =~= a@.skip(i + 1));
        assert(b@.skip(i as int).drop_first() =~= b@.skip(i + 1));
        i = i + 1;
    }
    if i == a.len() {
        i < b.len()
    } else if i == b.len() {
        false
    } else {
        a[i] < b[i]
    }
}

/// `a` ranks before `b` among the tokens `toks`: it occurs more often, or as
/// often and comes first lexicographically.
pub open spec fn ranks_before(toks: Seq<Seq<char>>, a: Seq<char>, b: Seq<char>) -> bool {
    occurrences(toks, a) > occurrences(toks, b) || (occurrences(toks, a) == occurrences(toks, b)
        && lex_lt(a, b))
}

proof fn lemma_ranks_total(toks: Seq<Seq<char>>, a: Seq<char>, b: Seq<char>)
    requires
        a != b,
    ensures
        ranks_before(toks, a, b) || ranks_before(toks, b, a),
{
    lemma_lex_total(a, b);
}

proof fn lemma_ranks_transitive(toks: Seq<Seq<char>>, a: Seq<char>, b: Seq<char>, c: Seq<char>)
    requires
        ranks_before(toks, a, b),
        ranks_before(toks, b, c),
    ensures
        ranks_before(toks, a, c),
{
    if occurrences(toks, a) == occurrences(toks, b) && occurrences(toks, b) == occurrences(toks, c) {
        lemma_lex_transitive(a, b, c);
    }
}

proof fn lemma_ranks_irreflexive(toks: Seq<Seq<char>>, a: Seq<char>)
    ensures
        !ranks_before(toks, a, a),
{
    lemma_lex_irreflexive(a);
}

/// `res` is the keyword list of `toks` for `limit`: the distinct tokens ranked
/// by `ranks_before` (most frequent first, ties in lexicographic order), cut
/// after `limit` entries.
pub open spec fn is_keyword_list(toks: Seq<Seq<char>>, limit: int, res: Seq<Seq<char>>) -> bool {
    &&& res.len() <= limit
    &&& forall|i: int, j: int|
        0 <= i < j < res.len() ==> ranks_before(toks, #[trigger] res[i], #[trigger] res[j])
    &&& forall|i: int| 0 <= i < res.len() ==> toks.contains(#[trigger] res[i])
    &&& forall|t: Seq<char>|
        #[trigger] toks.contains(t) && !res.contains(t) ==> {
            &&& res.len() == limit
            &&& forall|i: int| 0 <= i < res.len() ==> ranks_before(toks, #[trigger] res[i], t)
        }
}

/// The keyword list is determined by the tokens and the limit.
pub proof fn lemma_keyword_list_unique(
    toks: Seq<Seq<char>>,
    limit: int,
    r1: Seq<Seq<char>>,
    r2: Seq<Seq<char>>,
)
    requires
        is_keyword_list(toks, limit, r1),
        is_keyword_list(toks, limit, r2),
    ensures
        r1 == r2,
    decreases r1.len() + r2.len(),
{
    assert(r1.take(0) =~= r2.take(0));
    lemma_keyword_list_prefix(toks, limit, r1, r2, 0);
}

proof fn lemma_keyword_list_prefix(
    toks: Seq<Seq<char>>,
    limit: int,
    r1: Seq<Seq<char>>,
    r2: Seq<Seq<char>>,
    k: int,
)
    requires
        is_keyword_list(toks, limit, r1),
        is_keyword_list(toks, limit, r2),
        0 <= k <= r1.len(),
        k <= r2.len(),
        r1.take(k) == r2.take(k),
    ensures
        r1 == r2,
    decreases r1.len() - k,
{
    if k == r1.len() && k == r2.len() {
        assert(r1 =~= r1.take(k));
        assert(r2 =~= r2.take(k));
    } else if k == r1.len() {
        // r2 has an element that r1 lacks
        let t = r2[k];
        assert(toks.contains(t));
        if r1.contains(t) {
            let i = choose|i: int| 0 <= i < r1.len() && r1[i] == t;
            assert(r2.take(k)[i] == r1.take(k)[i]);
            lemma_ranks_irreflexive(toks, t);
        }
        assert(r1.len() == limit);
    } else if k == r2.len() {
        let t = r1[k];
        assert(toks.contains(t));
        if r2.contains(t) {
            let i = choose|i: int| 0 <= i < r2.len() && r2[i] == t;
            assert(r1.take(k)[i] == r2.take(k)[i]);
            lemma_ranks_irreflexive(toks, t);
        }
        assert(r2.len() == limit);
    } else {
        let a = r1[k];
        let b = r2[k];
        if a != b {
            // a is not in r2's first k entries (those equal r1's, which rank before a)
            assert(toks.contains(a));
            assert(toks.contains(b));
            if r2.contains(a) {
                let i = choose|i: int| 0 <= i < r2.len() && r2[i] == a;
                if i < k {
                    assert(r1.take(k)[i] == r2.take(k)[i]);
                    assert(ranks_before(toks, r1[i], r1[k]));
                    lemma_ranks_irreflexive(toks, a);
                } else {
                    assert(i != k);
                    assert(ranks_before(toks, r2[k], r2[i]));
                }
            } else {
                assert(ranks_before(toks, r2[k], a));
            }
            if r1.contains(b) {
                let i = choose|i: int| 0 <= i < r1.len() && r1[i] == b;
                if i < k {
                    assert(r1.take(k)[i] == r2.take(k)[i]);
                    assert(ranks_before(toks, r2[i], r2[k]));
                    lemma_ranks_irreflexive(toks, b);
                } else {
                    assert(i != k);
                    assert(ranks_before(toks, r1[k], r1[i]));
                }
            } else {
                assert(ranks_before(toks, r1[k], b));
            }
            // both a before b and b before a
            lemma_ranks_transitive(toks, a, b, a);
            lemma_ranks_irreflexive(toks, a);
        }
        assert(r1.take(k + 1) =~= r1.take(k).push(a));
        assert(r2.take(k + 1) =~= r2.take(k).push(b));
        lemma_keyword_list_prefix(toks, limit, r1, r2, k + 1);
    }
}

fn find_chars(items: &Vec<Vec<char>>, t: &[char]) -> (r: Option<usize>)
    ensures
        match r {
            Some(j) => j < items.len() && items@[j as int]@ == t@,
            None => forall|j: int| 0 <= j < items.len() ==> items@[j]@ != t@,
        },
{
    let mut j: usize = 0;
    while j < items.len()
        invariant
            j <= items.len(),
            forall|m: int| 0 <= m < j ==> items@[m]@ != t@,
        decreases items.len() - j,
    {
        if eq_chars(&items[j], t) {
            return Some(j);
        }
        j = j + 1;
    }
    None
}

/// The distinct tokens in order of first occurrence, with their counts.
fn count_tokens(toks: &Vec<Vec<char>>) -> (r: (Vec<Vec<char>>, Vec<usize>, Ghost<Seq<int>>))
    ensures
        r.0.len() == r.1.len(),
        forall|a: int, b: int| 0 <= a < b < r.0.len() ==> r.0@[a]@ != r.0@[b]@,
        forall|j: int| 0 <= j < r.0.len() ==> #[trigger] r.1@[j] == occurrences(toks.deep_view(), r.0@[j]@),
        forall|j: int| 0 <= j < r.0.len() ==> toks.deep_view().contains(#[trigger] r.0@[j]@),
        r.2@.len() == toks.len(),
        forall|m: int| 0 <= m < toks.len() ==> {
            &&& 0 <= #[trigger] r.2@[m] < r.0.len()
            &&& r.0@[r.2@[m]]@ == toks@[m]@
        },
{
    let ghost tv = toks.deep_view();
    let mut uniq: Vec<Vec<char>> = Vec::new();
    let mut counts: Vec<usize> = Vec::new();
    let ghost mut pos: Seq<int> = Seq::empty();
    let mut i: usize = 0;
    while i < toks.len()
        invariant
            tv == toks.deep_view(),
            i <= toks.len(),
            uniq.len() == counts.len(),
            forall|a: int, b: int| 0 <= a < b < uniq.len() ==> uniq@[a]@ != uniq@[b]@,
            forall|j: int| 0 <= j < uniq.len() ==> #[trigger] counts@[j] == occurrences(tv.take(i as int), uniq@[j]@),
            forall|j: int| 0 <= j < uniq.len() ==> tv.take(i as int).contains(#[trigger] uniq@[j]@),
            forall|j: int| 0 <= j < uniq.len() ==> counts@[j] <= i,
            pos.len() == i,
            forall|m: int| 0 <= m < i ==> {
                &&& 0 <= #[trigger] pos[m] < uniq.len()
                &&& uniq@[pos[m]]@ == toks@[m]@
            },
        decreases toks.len() - i,
    {
        proof {
            assert(tv.take(i + 1).drop_last() =~= tv.take(i as int));
            assert(tv.take(i + 1).last() == toks@[i as int]@);
            assert(tv[i as int] == toks@[i as int]@);
        }
        match find_chars(&uniq, &toks[i]) {
            Some(j) => {
                counts.set(j, counts[j] + 1);
                proof {
                    pos = pos.push(j as int);
                    assert forall|m: int| 0 <= m < uniq.len() implies tv.take(i + 1).contains(
                        #[trigger] uniq@[m]@,
                    ) by {
                        let w = choose|w: int| 0 <= w < i && tv.take(i as int)[w] == uniq@[m]@;
                        assert(tv.take(i + 1)[w] == uniq@[m]@);
                    }
                }
            },
            None => {
                let t = copy_range(&toks[i], 0, toks[i].len());
                assert(t@ =~= toks@[i as int]@);
                uniq.push(t);
                counts.push(1);
                proof {
                    pos = pos.push((uniq.len() - 1) as int);
                    assert forall|m: int| 0 <= m < uniq.len() implies tv.take(i + 1).contains(
                        #[trigger] uniq@[m]@,
                    ) by {
                        if m < uniq.len() - 1 {
                            let w = choose|w: int| 0 <= w < i && tv.take(i as int)[w] == uniq@[m]@;
                            assert(tv.take(i + 1)[w] == uniq@[m]@);
                        } else {
                            assert(tv.take(i + 1)[i as int] == uniq@[m]@);
                        }
                    }
                    let last = (uniq.len() - 1) as int;
                    if !tv.take(i as int).contains(t@) {
                        lemma_occurrences_absent(tv.take(i as int), t@);
                    } else {
                        let w = choose|w: int| 0 <= w < i && tv.take(i as int)[w] == t@;
                        assert(uniq@[pos[w]]@ == t@);
                    }
                }
            },
        }
        i = i + 1;
    }
    proof {
        assert(tv.take(toks.len() as int) =~= tv);
    }
    (uniq, counts, Ghost(pos))
}

proof fn lemma_occurrences_absent(toks: Seq<Seq<char>>, t: Seq<char>)
    requires
        !toks.contains(t),
    ensures
        occurrences(toks, t) == 0,
    decreases toks.len(),
{
    if toks.len() > 0 {
        assert(!toks.drop_last().contains(t)) by {
            if toks.drop_last().contains(t) {
                let w = choose|w: int| 0 <= w < toks.len() - 1 && toks.drop_last()[w] == t;
                assert(toks[w] == t);
            }
        }
        assert(toks[toks.len() - 1] != t);
        lemma_occurrences_absent(toks.drop_last(), t);
    }
}

/// Ranks the distinct tokens of `toks` and keeps the first `limit`.
pub fn keywords_of_tokens(toks: &Vec<Vec<char>>, limit: usize) -> (r: Vec<Vec<char>>)
    ensures
        is_keyword_list(toks.deep_view(), limit as int, r.deep_view()),
{
    let ghost tv = toks.deep_view();
    let (uniq, counts, Ghost(pos)) = count_tokens(toks);
    let m = uniq.len();
    let mut used: Vec<bool> = Vec::new();
    let mut j: usize = 0;
    while j < m
        invariant
            j <= m,
            used.len() == j,
            forall|a: int| 0 <= a < j ==> !used@[a],
        decreases m - j,
    {
        used.push(false);
        j = j + 1;
    }
    let mut res: Vec<Vec<char>> = Vec::new();
    let ghost mut order: Seq<int> = Seq::empty();
    let ghost mut slot: Seq<int> = Seq::new(m as nat, |a: int| 0int);
    let mut exhausted = false;
    while res.len() < limit && !exhausted
        invariant
            tv == toks.deep_view(),
            m == uniq.len(),
            m == counts.len(),
            used.len() == m,
            res.len() <= limit,
            forall|a: int, b: int| 0 <= a < b < m ==> uniq@[a]@ != uniq@[b]@,
            forall|a: int| 0 <= a < m ==> #[trigger] counts@[a] == occurrences(tv, uniq@[a]@),
            order.len() == res.len(),
            slot.len() == m,
            forall|p: int| 0 <= p < res.len() ==> {
                &&& 0 <= #[trigger] order[p] < m
                &&& used@[order[p]]
                &&& res@[p]@ == uniq@[order[p]]@
            },
            forall|a: int| 0 <= a < m && #[trigger] used@[a] ==> {
                &&& 0 <= slot[a] < res.len()
                &&& order[slot[a]] == a
            },
            forall|p: int, q: int|
                0 <= p < q < res.len() ==> ranks_before(tv, #[trigger] res@[p]@, #[trigger] res@[q]@),
            forall|p: int, a: int|
                0 <= p < res.len() && 0 <= a < m && !used@[a] ==> ranks_before(
                    tv,
                    #[trigger] res@[p]@,
                    #[trigger] uniq@[a]@,
                ),
            exhausted ==> forall|a: int| 0 <= a < m ==> used@[a],
        decreases (limit - res.len()) * 2 + if exhausted {
            0int
        } else {
            1int
        },
    {
        // find the best unused token
        let mut best: Option<usize> = None;
        let mut a: usize = 0;
        while a < m
            invariant
                m == uniq.len(),
                m == counts.len(),
                used.len() == m,
                a <= m,
                forall|x: int, y: int| 0 <= x < y < m ==> uniq@[x]@ != uniq@[y]@,
                forall|x: int| 0 <= x < m ==> #[trigger] counts@[x] == occurrences(tv, uniq@[x]@),
                match best {
                    Some(b) => {
                        &&& b < a
                        &&& !used@[b as int]
                        &&& forall|x: int|
                            0 <= x < a && !used@[x] && x != b ==> ranks_before(
                                tv,
                                uniq@[b as int]@,
                                #[trigger] uniq@[x]@,
                            )
                    },
                    None => forall|x: int| 0 <= x < a ==> used@[x],
                },
            decreases m - a,
        {
            if !used[a] {
                match best {
                    None => {
                        best = Some(a);
                    },
                    Some(b) => {
                        let better = counts[a] > counts[b] || (counts[a] == counts[b] && lex_less(
                            &uniq[a],
                            &uniq[b],
                        ));
                        if better {
                            proof {
                                assert forall|x: int|
                                    0 <= x < a + 1 && !used@[x] && x != a implies ranks_before(
                                    tv,
                                    uniq@[a as int]@,
                                    #[trigger] uniq@[x]@,
                                ) by {
                                    if x != b {
                                        lemma_ranks_transitive(
                                            tv,
                                            uniq@[a as int]@,
                                            uniq@[b as int]@,
                                            uniq@[x]@,
                                        );
                                    }
                                }
                            }
                            best = Some(a);
                        } else {
                            proof {
                                lemma_ranks_total(tv, uniq@[a as int]@, uniq@[b as int]@);
                            }
                        }
                    },
                }
            }
            a = a + 1;
        }
        match best {
            None => {
                exhausted = true;
            },
            Some(b) => {
                let t = copy_range(&uniq[b], 0, uniq[b].len());
                assert(t@ =~= uniq@[b as int]@);
                let ghost before = res;
                res.push(t);
                used.set(b, true);
                proof {
                    order = order.push(b as int);
                    slot = slot.update(b as int, (res.len() - 1) as int);
                    assert forall|p: int, q: int|
                        0 <= p < q < res.len() implies ranks_before(
                        tv,
                        #[trigger] res@[p]@,
                        #[trigger] res@[q]@,
                    ) by {
                        if q == res.len() - 1 {
                            assert(res@[p] == before@[p]);
                        } else {
                            assert(res@[p] == before@[p]);
                            assert(res@[q] == before@[q]);
                        }
                    }
                    assert forall|p: int, x: int|
                        0 <= p < res.len() && 0 <= x < m && !used@[x] implies ranks_before(
                        tv,
                        #[trigger] res@[p]@,
                        #[trigger] uniq@[x]@,
                    ) by {
                        if p < res.len() - 1 {
                            assert(res@[p] == before@[p]);
                        }
                    }
                }
            },
        }
    }
    proof {
        let rv = res.deep_view();
        assert forall|p: int| 0 <= p < rv.len() implies #[trigger] rv[p] == res@[p]@ by {}
        assert forall|p: int, q: int|
            0 <= p < q < rv.len() implies ranks_before(tv, #[trigger] rv[p], #[trigger] rv[q]) by {
            assert(rv[p] == res@[p]@);
            assert(rv[q] == res@[q]@);
        }
        assert forall|p: int| 0 <= p < rv.len() implies tv.contains(#[trigger] rv[p]) by {
            assert(rv[p] == uniq@[order[p]]@);
        }
        assert forall|t: Seq<char>| #[trigger] tv.contains(t) && !rv.contains(t) implies {
            &&& rv.len() == limit
            &&& forall|p: int| 0 <= p < rv.len() ==> ranks_before(tv, #[trigger] rv[p], t)
        } by {
            let w = choose|w: int| 0 <= w < tv.len() && tv[w] == t;
            assert(tv[w] == toks@[w]@);
            let a = pos[w];
            assert(uniq@[a]@ == t);
            if used@[a] {
                assert(rv[slot[a]] == t);
            }
            assert(!used@[a]);
            assert forall|p: int| 0 <= p < rv.len() implies ranks_before(tv, #[trigger] rv[p], t) by {
                assert(rv[p] == res@[p]@);
            }
        }
    }
    res
}

/// The `limit` most frequent tokens of `text`, ties broken lexicographically.
pub fn keywords_for_text(text: &str, limit: usize) -> (r: Vec<String>)
    ensures
        is_keyword_list(spec_tokenize(text@), limit as int, r.deep_view()),
{
    let toks = tokenize_chars(&chars_of(text));
    strings_of(&keywords_of_tokens(&toks, limit))
}

} // verus!
