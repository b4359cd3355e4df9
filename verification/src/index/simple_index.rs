//! The local index: per chunk, its keywords and a hashed bag-of-tokens
//! embedding; entries are keyed by chunk id.
use vstd::prelude::*;

use crate::config::IndexConfig;
use crate::domain::chunk::Chunk;
use crate::utils::chars::{chars_of, eq_chars, string_of};
use crate::utils::copy::copy_string;
use crate::utils::text::{
    is_keyword_list, keywords_of_tokens, spec_tokenize, strings_of, tokenize_chars,
};

verus! {

/// One indexed chunk: its ids, keywords and embedding.  The embedding type is
/// a parameter: the index builds token counts per slot (`Vec<usize>`), which
/// callers may normalize into another representation.
pub struct IndexEntry<E> {
    pub chunk_id: String,
    pub document_id: String,
    pub section_id: String,
    pub keywords: Vec<String>,
    pub embedding: E,
}

/// The entries of an index.
pub struct SimpleIndexData<E> {
    pub entries: Vec<IndexEntry<E>>,
}

impl<E> SimpleIndexData<E> {
    pub fn new() -> (r: Self)
        ensures
            r.entries@.len() == 0,
    {
        SimpleIndexData { entries: Vec::new() }
    }
}

/// Builds, merges and looks up index entries with the configured embedding
/// size.
pub struct SimpleIndex {
    pub config: IndexConfig,
}

// ---------------------------------------------------------------------------
// Hashed embedding
// ---------------------------------------------------------------------------

/// The token hash: over the token's UTF-8 bytes, `h = h * 31 + byte`, with
/// wrapping `usize` arithmetic, from 0.
pub open spec fn token_hash(bytes: Seq<u8>) -> usize
    decreases bytes.len(),
{
    if bytes.len() == 0 {
        0
    } else {
        vstd::wrapping::usize_specs::wrapping_add(
            vstd::wrapping::usize_specs::wrapping_mul(token_hash(bytes.drop_last()), 31),
            bytes.last() as usize,
        )
    }
}

/// The embedding slot of a token.
pub open spec fn token_slot(t: Seq<char>, dims: usize) -> int {
    (token_hash(vstd::utf8::encode_utf8(t)) % dims) as int
}

/// Number of tokens of `toks` that fall into slot `slot`.
pub open spec fn slot_count(toks: Seq<Seq<char>>, dims: usize, slot: int) -> nat
    decreases toks.len(),
{
    if toks.len() == 0 {
        0
    } else {
        slot_count(toks.drop_last(), dims, slot) + if token_slot(toks.last(), dims) == slot {
            1nat
        } else {
            0nat
        }
    }
}

fn hash_token(t: &[char]) -> (h: usize)
    ensures
        h == token_hash(vstd::utf8::encode_utf8(t@)),
{
    let s = string_of(t);
    let bytes = s.as_str().as_bytes();
    let mut h: usize = 0;
    let mut i: usize = 0;
    while i < bytes.len()
        invariant
            i <= bytes.len(),
            h == token_hash(bytes@.take(i as int)),
        decreases bytes.len() - i,
    {
        assert(bytes@.take(i + 1).drop_last() =~= bytes@.take(i as int));
        h = h.wrapping_mul(31).wrapping_add(bytes[i] as usize);
        i = i + 1;
    }
    assert(bytes@.take(bytes.len() as int) =~= bytes@);
    h
}

impl SimpleIndex {
    pub fn new(config: IndexConfig) -> (r: Self)
        ensures
            r.config == config,
    {
        SimpleIndex { config }
    }

    /// The embedding of a text before normalization: for each of the
    /// configured slots, how many of the text's tokens hash into it.  With no
    /// slots, only a text without tokens can be embedded.
    pub fn embed_counts(&self, text: &str) -> (r: Vec<usize>)
        requires
            self.config.embedding_dimensions > 0 || spec_tokenize(text@).len() == 0,
        ensures
            r.len() == self.config.embedding_dimensions,
            forall|slot: int|
                0 <= slot < r.len() ==> #[trigger] r@[slot] == slot_count(
                    spec_tokenize(text@),
                    self.config.embedding_dimensions,
                    slot,
                ),
    {
        let dims = self.config.embedding_dimensions;
        let toks = tokenize_chars(&chars_of(text));
        let ghost tv = toks.deep_view();
        let mut v: Vec<usize> = Vec::new();
        let mut j: usize = 0;
        while j < dims
            invariant
                j <= dims,
                v.len() == j,
                forall|s: int| 0 <= s < j ==> v@[s] == 0,
            decreases dims - j,
        {
            v.push(0);
            j = j + 1;
        }
        let mut i: usize = 0;
        while i < toks.len()
            invariant
                tv == toks.deep_view(),
                dims > 0 || tv.len() == 0,
                i <= toks.len(),
                v.len() == dims,
                forall|s: int| 0 <= s < dims ==> #[trigger] v@[s] == slot_count(tv.take(i as int), dims, s),
                forall|s: int| 0 <= s < dims ==> v@[s] <= i,
            decreases toks.len() - i,
        {
            assert(tv.take(i + 1).drop_last() =~= tv.take(i as int));
            assert(tv.take(i + 1).last() == toks@[i as int]@);
            let slot = hash_token(&toks[i]) % dims;
            let c = v[slot] + 1;
            v.set(slot, c);
            i = i + 1;
        }
        assert(tv.take(toks.len() as int) =~= tv);
        v
    }

    /// One entry per chunk, in order: the chunk's ids, its ten keywords and
    /// its token counts per slot.  With no slots, only chunks without tokens
    /// can be indexed.
    pub fn build(&self, chunks: &[Chunk]) -> (r: SimpleIndexData<Vec<usize>>)
        requires
            self.config.embedding_dimensions > 0 || forall|i: int|
                0 <= i < chunks@.len() ==> spec_tokenize((#[trigger] chunks@[i]).text@).len() == 0,
        ensures
            r.entries@.len() == chunks@.len(),
            forall|i: int|
                0 <= i < chunks@.len() ==> {
                    let e = #[trigger] r.entries@[i];
                    let c = chunks@[i];
                    &&& e.chunk_id@ == c.id@
                    &&& e.document_id@ == c.document_id@
                    &&& e.section_id@ == c.section_id@
                    &&& is_keyword_list(spec_tokenize(c.text@), 10, e.keywords.deep_view())
                    &&& e.embedding.len() == self.config.embedding_dimensions
                    &&& forall|slot: int|
                        0 <= slot < e.embedding.len() ==> #[trigger] e.embedding@[slot]
                            == slot_count(
                            spec_tokenize(c.text@),
                            self.config.embedding_dimensions,
                            slot,
                        )
                },
    {
        let mut entries: Vec<IndexEntry<Vec<usize>>> = Vec::new();
        let mut i: usize = 0;
        while i < chunks.len()
            invariant
                self.config.embedding_dimensions > 0 || forall|k: int|
                    0 <= k < chunks@.len() ==> spec_tokenize((#[trigger] chunks@[k]).text@).len() == 0,
                i <= chunks.len(),
                entries@.len() == i,
                forall|k: int|
                    0 <= k < i ==> {
                        let e = #[trigger] entries@[k];
                        let c = chunks@[k];
                        &&& e.chunk_id@ == c.id@
                        &&& e.document_id@ == c.document_id@
                        &&& e.section_id@ == c.section_id@
                        &&& is_keyword_list(spec_tokenize(c.text@), 10, e.keywords.deep_view())
                        &&& e.embedding.len() == self.config.embedding_dimensions
                        &&& forall|slot: int|
                            0 <= slot < e.embedding.len() ==> #[trigger] e.embedding@[slot]
                                == slot_count(
                                spec_tokenize(c.text@),
                                self.config.embedding_dimensions,
                                slot,
                            )
                    },
            decreases chunks.len() - i,
        {
            let c = &chunks[i];
            let toks = tokenize_chars(&chars_of(c.text.as_str()));
            let keywords = strings_of(&keywords_of_tokens(&toks, 10));
            let entry = IndexEntry {
                chunk_id: copy_string(&c.id),
                document_id: copy_string(&c.document_id),
                section_id: copy_string(&c.section_id),
                keywords,
                embedding: self.embed_counts(c.text.as_str()),
            };
            entries.push(entry);
            i = i + 1;
        }
        SimpleIndexData { entries }
    }

    /// Merges fresh entries into an index, keyed by chunk id: a fresh entry
    /// replaces any entry with its chunk id (the last fresh one winning), other
    /// entries stay (the last one of a repeated id winning), and every chunk id
    /// occurs once.
    pub fn merge<E>(&self, existing: SimpleIndexData<E>, fresh: SimpleIndexData<E>) -> (r: SimpleIndexData<E>)
        ensures
            unique_keys(r.entries@),
            forall|key: Seq<char>|
                #[trigger] lookup(r.entries@, key) == merged_lookup(existing.entries@, fresh.entries@, key),
    {
        let ghost ex = existing.entries@;
        let ghost fr = fresh.entries@;
        let mut out: Vec<IndexEntry<E>> = Vec::new();
        let mut fresh_entries = fresh.entries;
        while fresh_entries.len() > 0
            invariant
                fresh_entries@ == fr.take(fresh_entries@.len() as int),
                fresh_entries@.len() <= fr.len(),
                unique_keys(out@),
                forall|key: Seq<char>|
                    #[trigger] lookup(out@, key) == lookup(fr.skip(fresh_entries@.len() as int), key),
            decreases fresh_entries.len(),
        {
            let j = fresh_entries.len();
            let e = fresh_entries.pop().unwrap();
            proof {
                assert(e == fr[j - 1]);
                lemma_lookup_skip(fr, j - 1);
            }
            insert_if_absent(&mut out, e);
            proof {
                assert(fresh_entries@ =~= fr.take(j - 1));
            }
        }
        let mut existing_entries = existing.entries;
        while existing_entries.len() > 0
            invariant
                existing_entries@ == ex.take(existing_entries@.len() as int),
                existing_entries@.len() <= ex.len(),
                unique_keys(out@),
                forall|key: Seq<char>|
                    #[trigger] lookup(out@, key) == merged_lookup(
                        ex.skip(existing_entries@.len() as int),
                        fr,
                        key,
                    ),
            decreases existing_entries.len(),
        {
            let j = existing_entries.len();
            let e = existing_entries.pop().unwrap();
            proof {
                assert(e == ex[j - 1]);
                lemma_lookup_skip(ex, j - 1);
            }
            insert_if_absent(&mut out, e);
            proof {
                assert(existing_entries@ =~= ex.take(j - 1));
            }
        }
        proof {
            assert(fr.skip(0) =~= fr);
            assert(ex.skip(0) =~= ex);
        }
        SimpleIndexData { entries: out }
    }
}

// ---------------------------------------------------------------------------
// Entries keyed by chunk id
// ---------------------------------------------------------------------------

/// Index of the last entry with chunk id `key`, or -1.
pub open spec fn last_index<E>(entries: Seq<IndexEntry<E>>, key: Seq<char>) -> int
    decreases entries.len(),
{
    if entries.len() == 0 {
        -1
    } else if entries.last().chunk_id@ == key {
        entries.len() - 1
    } else {
        last_index(entries.drop_last(), key)
    }
}

/// The entry for chunk id `key`: the last one with that id.
pub open spec fn lookup<E>(entries: Seq<IndexEntry<E>>, key: Seq<char>) -> Option<IndexEntry<E>> {
    let i = last_index(entries, key);
    if i >= 0 {
        Some(entries[i])
    } else {
        None
    }
}

/// The entry for `key` after merging: the fresh one if there is one, else the
/// existing one.
pub open spec fn merged_lookup<E>(
    existing: Seq<IndexEntry<E>>,
    fresh: Seq<IndexEntry<E>>,
    key: Seq<char>,
) -> Option<IndexEntry<E>> {
    match lookup(fresh, key) {
        Some(e) => Some(e),
        None => lookup(existing, key),
    }
}

/// No chunk id occurs twice.
pub open spec fn unique_keys<E>(entries: Seq<IndexEntry<E>>) -> bool {
    forall|i: int, j: int|
        0 <= i < j < entries.len() ==> (#[trigger] entries[i]).chunk_id@ != (#[trigger] entries[j]).chunk_id@
}

proof fn lemma_last_index_bounds<E>(entries: Seq<IndexEntry<E>>, key: Seq<char>)
    ensures
        -1 <= last_index(entries, key) < entries.len(),
        last_index(entries, key) >= 0 ==> entries[last_index(entries, key)].chunk_id@ == key,
        last_index(entries, key) < 0 ==> forall|i: int|
            0 <= i < entries.len() ==> (#[trigger] entries[i]).chunk_id@ != key,
    decreases entries.len(),
{
    if entries.len() > 0 {
        lemma_last_index_bounds(entries.drop_last(), key);
        if entries.last().chunk_id@ != key {
            assert forall|i: int| 0 <= i < entries.len() - 1 implies entries[i]
                == entries.drop_last()[i] by {}
        }
    }
}

/// Looking a key up in a suffix one entry longer: the later entries win, else
/// the new first entry when it has the key.
proof fn lemma_lookup_skip<E>(s: Seq<IndexEntry<E>>, j: int)
    requires
        0 <= j < s.len(),
    ensures
        forall|key: Seq<char>|
            #[trigger] lookup(s.skip(j), key) == match lookup(s.skip(j + 1), key) {
                Some(e) => Some(e),
                None => if s[j].chunk_id@ == key {
                    Some(s[j])
                } else {
                    None
                },
            },
    decreases s.len(),
{
    assert forall|key: Seq<char>|
        #[trigger] lookup(s.skip(j), key) == match lookup(s.skip(j + 1), key) {
            Some(e) => Some(e),
            None => if s[j].chunk_id@ == key {
                Some(s[j])
            } else {
                None
            },
        } by {
        lemma_lookup_skip_key(s, j, key);
    }
}

proof fn lemma_lookup_skip_key<E>(s: Seq<IndexEntry<E>>, j: int, key: Seq<char>)
    requires
        0 <= j < s.len(),
    ensures
        lookup(s.skip(j), key) == match lookup(s.skip(j + 1), key) {
            Some(e) => Some(e),
            None => if s[j].chunk_id@ == key {
                Some(s[j])
            } else {
                None
            },
        },
    decreases s.len(),
{
    if j == s.len() - 1 {
        assert(s.skip(j + 1) =~= Seq::<IndexEntry<E>>::empty());
        assert(s.skip(j).drop_last() =~= Seq::<IndexEntry<E>>::empty());
    } else {
        let t = s.drop_last();
        lemma_lookup_skip_key(t, j, key);
        assert(s.skip(j).drop_last() =~= t.skip(j));
        assert(s.skip(j + 1).drop_last() =~= t.skip(j + 1));
        assert(s.skip(j).last() == s.last());
        assert(s.skip(j + 1).last() == s.last());
        if s.last().chunk_id@ != key {
            lemma_last_index_bounds(t.skip(j + 1), key);
            lemma_last_index_bounds(t.skip(j), key);
        }
    }
}

fn insert_if_absent<E>(out: &mut Vec<IndexEntry<E>>, e: IndexEntry<E>)
    requires
        unique_keys(old(out)@),
    ensures
        unique_keys(final(out)@),
        forall|key: Seq<char>|
            #[trigger] lookup(final(out)@, key) == match lookup(old(out)@, key) {
                Some(x) => Some(x),
                None => if e.chunk_id@ == key {
                    Some(e)
                } else {
                    None
                },
            },
{
    let key = chars_of(e.chunk_id.as_str());
    let mut i: usize = 0;
    while i < out.len()
        invariant
            i <= out.len(),
            key@ == e.chunk_id@,
            out@ == old(out)@,
            unique_keys(out@),
            forall|m: int| 0 <= m < i ==> (#[trigger] out@[m]).chunk_id@ != key@,
        decreases out.len() - i,
    {
        if eq_chars(&chars_of(out[i].chunk_id.as_str()), &key) {
            proof {
                assert forall|k: Seq<char>| #[trigger] lookup(out@, k) == match lookup(out@, k) {
                    Some(x) => Some(x),
                    None => if e.chunk_id@ == k {
                        Some(e)
                    } else {
                        None
                    },
                } by {
                    lemma_last_index_bounds(out@, k);
                    if k == e.chunk_id@ {
                        assert(out@[i as int].chunk_id@ == k);
                    }
                }
            }
            return;
        }
        i = i + 1;
    }
    let ghost before = out@;
    out.push(e);
    proof {
        assert(out@.drop_last() =~= before);
        assert forall|k: Seq<char>| #[trigger] lookup(out@, k) == match lookup(before, k) {
            Some(x) => Some(x),
            None => if e.chunk_id@ == k {
                Some(e)
            } else {
                None
            },
        } by {
            lemma_last_index_bounds(before, k);
            if k != e.chunk_id@ {
                assert(last_index(out@, k) == last_index(before, k));
            }
        }
        assert forall|a: int, b: int| 0 <= a < b < out@.len() implies (#[trigger] out@[a]).chunk_id@
            != (#[trigger] out@[b]).chunk_id@ by {
            if b == out@.len() - 1 {
                assert(out@[a] == before[a]);
            } else {
                assert(out@[a] == before[a]);
                assert(out@[b] == before[b]);
            }
        }
    }
}

/// Merging keeps every chunk id exactly once, and looking one up afterwards
/// gives the fresh entry when the merge brought one, else the entry that was
/// there.
pub proof fn lemma_merge_lookup<E>(
    existing: Seq<IndexEntry<E>>,
    fresh: Seq<IndexEntry<E>>,
    key: Seq<char>,
)
    ensures
        (lookup(fresh, key) is Some) ==> merged_lookup(existing, fresh, key) == lookup(fresh, key),
        (lookup(fresh, key) is None) ==> merged_lookup(existing, fresh, key) == lookup(existing, key),
        (merged_lookup(existing, fresh, key) is None) <==> (lookup(existing, key) is None && lookup(
            fresh,
            key,
        ) is None),
{
}


/// How many of the query's terms (counted with repeats) are among the
/// keywords.
pub open spec fn spec_keyword_overlap(terms: Seq<Seq<char>>, keywords: Seq<Seq<char>>) -> nat
    decreases terms.len(),
{
    if terms.len() == 0 {
        0
    } else {
        spec_keyword_overlap(terms.drop_last(), keywords) + if keywords.contains(terms.last()) {
            1nat
        } else {
            0nat
        }
    }
}

fn has_keyword(keywords: &Vec<String>, term: &[char]) -> (r: bool)
    ensures
        r == keywords.deep_view().contains(term@),
{
    let ghost kv = keywords.deep_view();
    let mut i: usize = 0;
    while i < keywords.len()
        invariant
            kv == keywords.deep_view(),
            i <= keywords.len(),
            forall|j: int| 0 <= j < i ==> kv[j] != term@,
        decreases keywords.len() - i,
    {
        if eq_chars(&chars_of(keywords[i].as_str()), term) {
            assert(kv[i as int] == term@);
            return true;
        }
        i = i + 1;
    }
    false
}

impl SimpleIndex {
    /// The term-overlap part of a chunk's score: how many of the query's
    /// tokens are among the entry's keywords.
    pub fn keyword_overlap<E>(&self, query: &str, entry: &IndexEntry<E>) -> (r: usize)
        ensures
            r == spec_keyword_overlap(spec_tokenize(query@), entry.keywords.deep_view()),
    {
        let terms = tokenize_chars(&chars_of(query));
        let ghost tv = terms.deep_view();
        let mut n: usize = 0;
        let mut i: usize = 0;
        while i < terms.len()
            invariant
                tv == terms.deep_view(),
                i <= terms.len(),
                n == spec_keyword_overlap(tv.take(i as int), entry.keywords.deep_view()),
                n <= i,
            decreases terms.len() - i,
        {
            proof {
                assert(tv.take(i + 1).drop_last() =~= tv.take(i as int));
                assert(tv.take(i + 1).last() == terms@[i as int]@);
            }
            if has_keyword(&entry.keywords, &terms[i]) {
                n = n + 1;
            }
            i = i + 1;
        }
        assert(tv.take(terms.len() as int) =~= tv);
        n
    }
}


/// The counts of slots `0..n` added up.
pub open spec fn slots_total(toks: Seq<Seq<char>>, dims: usize, n: int) -> nat
    decreases n,
{
    if n <= 0 {
        0
    } else {
        slots_total(toks, dims, n - 1) + slot_count(toks, dims, n - 1)
    }
}

proof fn lemma_slots_total_last(toks: Seq<Seq<char>>, dims: usize, n: int)
    requires
        toks.len() > 0,
    ensures
        slots_total(toks, dims, n) == slots_total(toks.drop_last(), dims, n) + if 0 <= token_slot(
            toks.last(),
            dims,
        ) < n {
            1nat
        } else {
            0nat
        },
    decreases n,
{
    if n > 0 {
        lemma_slots_total_last(toks, dims, n - 1);
    }
}

/// Every token lands in exactly one slot: the slot counts of a text add up to
/// its number of tokens.
pub proof fn lemma_slot_counts_sum(toks: Seq<Seq<char>>, dims: usize)
    requires
        dims > 0,
    ensures
        slots_total(toks, dims, dims as int) == toks.len(),
    decreases toks.len(),
{
    if toks.len() == 0 {
        lemma_slots_total_empty(toks, dims, dims as int);
    } else {
        lemma_slot_counts_sum(toks.drop_last(), dims);
        lemma_slots_total_last(toks, dims, dims as int);
        assert(0 <= token_slot(toks.last(), dims) < dims);
    }
}

proof fn lemma_slots_total_empty(toks: Seq<Seq<char>>, dims: usize, n: int)
    requires
        toks.len() == 0,
    ensures
        slots_total(toks, dims, n) == 0,
    decreases n,
{
    if n > 0 {
        lemma_slots_total_empty(toks, dims, n - 1);
    }
}

} // verus!
