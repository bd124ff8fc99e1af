//! The in-memory index of the film library: one entry per TMDB id, with
//! the files found for it and the TMDB data fetched for it.
use vstd::prelude::*;

use crate::sort::{lemma_lex_antisym, lemma_lex_trans, lex_le};
use crate::text::{
    chars_eq, chars_eq_ignore_ascii_case, chars_eq_str, chars_lex_le, chars_of, codes, contains_chars,
    contains_seq, decimal, eq_ignore_ascii_case, lemma_codes_injective, parse_u64, parsed_u64,
    push_decimal, push_str, string_of, to_lowercase, unicode_lower,
};

verus! {

/// One stream of a probed video file.
#[derive(Debug)]
pub struct FileStreamInfo {
    pub index: i64,
    pub codec_type: String,
    pub codec_name: String,
    pub width: Option<i64>,
    pub height: Option<i64>,
    pub frame_rate: Option<String>,
    pub bit_rate: Option<i64>,
    pub channels: Option<i64>,
    pub sample_rate: Option<String>,
    pub language: Option<String>,
    pub title: Option<String>,
}

/// What probing a video file found.
#[derive(Debug)]
pub struct FileMediaInfo {
    pub file_size: Option<i64>,
    /// The duration in seconds, as the bits of an `f64`.
    pub duration_secs_bits: Option<u64>,
    pub format_name: Option<String>,
    pub bit_rate: Option<i64>,
    pub streams: Vec<FileStreamInfo>,
}

/// One film of the library.
#[derive(Debug)]
pub struct IndexEntry {
    pub tmdb_id: u64,
    pub title: String,
    pub director: String,
    pub director_display: String,
    pub year: Option<u32>,
    pub genres: Vec<String>,
    /// The film's directory, relative to the library root.
    pub path: String,
    pub files: Vec<String>,
    pub added_at: String,
    pub poster_url: Option<String>,
    pub overview: Option<String>,
    /// The TMDB vote average, as the bits of an `f64`.
    pub rating_bits: Option<u64>,
    /// Names by role, one pair per role.
    pub credits: Vec<(String, Vec<String>)>,
    pub original_title: Option<String>,
    /// Probe results by file name.
    pub media_info: Vec<(String, FileMediaInfo)>,
}

/// The TMDB data that replaces what an entry holds.
#[derive(Debug)]
pub struct EntryMetadata {
    pub title: Option<String>,
    pub year: Option<u32>,
    pub genres: Option<Vec<String>>,
    pub poster_url: Option<String>,
    pub overview: Option<String>,
    /// The TMDB vote average, as the bits of an `f64`.
    pub rating_bits: Option<u64>,
    pub credits: Vec<(String, Vec<String>)>,
    pub original_title: Option<String>,
}

/// The index: the library root and its entries.
#[derive(Debug)]
pub struct LibraryIndex {
    pub root: String,
    pub version: u32,
    pub entries: Vec<IndexEntry>,
}

/// The test "the TMDB id is not `id`".
pub open spec fn other_id(id: u64) -> spec_fn(IndexEntry) -> bool {
    |e: IndexEntry| e.tmdb_id != id
}

/// The position of the first entry with TMDB id `id` at or after `i`.
pub open spec fn find_from(s: Seq<IndexEntry>, id: u64, i: int) -> Option<int>
    decreases s.len() - i,
{
    if i < 0 || i >= s.len() {
        None
    } else if s[i].tmdb_id == id {
        Some(i)
    } else {
        find_from(s, id, i + 1)
    }
}

/// The first entry with TMDB id `id`.
pub open spec fn lookup(s: Seq<IndexEntry>, id: u64) -> Option<IndexEntry> {
    match find_from(s, id, 0) {
        Some(i) => Some(s[i]),
        None => None,
    }
}

/// The entries after adding `e`: any entry with its id goes, `e` comes last.
pub open spec fn added(s: Seq<IndexEntry>, e: IndexEntry) -> Seq<IndexEntry> {
    s.filter(other_id(e.tmdb_id)).push(e)
}

/// The entries after removing every entry with TMDB id `id`.
pub open spec fn removed(s: Seq<IndexEntry>, id: u64) -> Seq<IndexEntry> {
    s.filter(other_id(id))
}

/// The first entry with id `id` at or after `k` is at `i` when the entries
/// from `k` up to `i` have other ids and the one at `i` has it.
proof fn lemma_find_first(s: Seq<IndexEntry>, id: u64, k: int, i: int)
    requires
        0 <= k <= i < s.len(),
        s[i].tmdb_id == id,
        forall|j: int| k <= j < i ==> #[trigger] s[j].tmdb_id != id,
    ensures
        find_from(s, id, k) == Some(i),
    decreases i - k,
{
    if k < i {
        lemma_find_first(s, id, k + 1, i);
    }
}

proof fn lemma_find_from_bounds(s: Seq<IndexEntry>, id: u64, i: int)
    requires
        0 <= i,
    ensures
        match find_from(s, id, i) {
            Some(k) => i <= k < s.len() && s[k].tmdb_id == id && forall|j: int|
                i <= j < k ==> #[trigger] s[j].tmdb_id != id,
            None => forall|j: int| i <= j < s.len() ==> #[trigger] s[j].tmdb_id != id,
        },
    decreases s.len() - i,
{
    if i < s.len() && s[i].tmdb_id != id {
        lemma_find_from_bounds(s, id, i + 1);
    }
}

/// The first entry with a given id is found exactly when one is there.
proof fn lemma_lookup(s: Seq<IndexEntry>, id: u64)
    ensures
        lookup(s, id) is None <==> forall|j: int| 0 <= j < s.len() ==> #[trigger] s[j].tmdb_id != id,
        lookup(s, id) matches Some(e) ==> e.tmdb_id == id,
{
    lemma_find_from_bounds(s, id, 0);
}

/// Dropping the entries of one id leaves the first entry of every other id.
proof fn lemma_lookup_filter(s: Seq<IndexEntry>, id: u64, other: u64)
    requires
        other != id,
    ensures
        lookup(s.filter(other_id(id)), other) == lookup(s, other),
    decreases s.len(),
{
    reveal(Seq::filter);
    if s.len() > 0 {
        let f = s.filter(other_id(id));
        let rest = s.drop_first();
        lemma_lookup_filter(rest, id, other);
        s.lemma_filter_prepend(s[0], other_id(id));
        assert(s =~= seq![s[0]] + rest);
        lemma_lookup_cons(s[0], rest, other);
        if s[0].tmdb_id != id {
            assert(f == seq![s[0]] + rest.filter(other_id(id)));
            lemma_lookup_cons(s[0], rest.filter(other_id(id)), other);
        } else {
            assert(f == rest.filter(other_id(id)));
        }
    } else {
        assert(s.filter(other_id(id)) =~= s);
    }
}

proof fn lemma_find_from_shift(x: IndexEntry, rest: Seq<IndexEntry>, id: u64, i: int)
    requires
        1 <= i,
    ensures
        find_from(seq![x] + rest, id, i) == match find_from(rest, id, i - 1) {
            Some(k) => Some(k + 1),
            None => None::<int>,
        },
    decreases rest.len() + 1 - i,
{
    let s = seq![x] + rest;
    if i < s.len() {
        assert(s[i] == rest[i - 1]);
        if s[i].tmdb_id != id {
            lemma_find_from_shift(x, rest, id, i + 1);
        }
    }
}

proof fn lemma_lookup_cons(x: IndexEntry, rest: Seq<IndexEntry>, id: u64)
    ensures
        lookup(seq![x] + rest, id) == if x.tmdb_id == id {
            Some(x)
        } else {
            lookup(rest, id)
        },
{
    let s = seq![x] + rest;
    if x.tmdb_id != id {
        lemma_find_from_shift(x, rest, id, 1);
        lemma_find_from_bounds(rest, id, 0);
        match find_from(rest, id, 0) {
            Some(k) => {
                assert(s[k + 1] == rest[k]);
            },
            None => {},
        }
    }
}

proof fn lemma_lookup_push(s: Seq<IndexEntry>, e: IndexEntry, id: u64)
    ensures
        lookup(s.push(e), id) == match lookup(s, id) {
            Some(x) => Some(x),
            None => if e.tmdb_id == id {
                Some(e)
            } else {
                None
            },
        },
{
    let t = s.push(e);
    lemma_find_from_bounds(s, id, 0);
    lemma_find_from_bounds(t, id, 0);
    match find_from(s, id, 0) {
        Some(k) => {
            match find_from(t, id, 0) {
                Some(m) => {
                    assert(t[k] == s[k]);
                    if m < k {
                        assert(t[m] == s[m]);
                    }
                },
                None => {
                    assert(t[k] == s[k]);
                },
            }
        },
        None => {
            match find_from(t, id, 0) {
                Some(m) => {
                    if m < s.len() {
                        assert(t[m] == s[m]);
                    }
                },
                None => {
                    assert(t[s.len() as int] == e);
                },
            }
        },
    }
}

/// Reading an id back after adding an entry gives that entry; every other
/// id reads as before.
pub proof fn lemma_get_after_add(s: Seq<IndexEntry>, e: IndexEntry, id: u64)
    ensures
        lookup(added(s, e), id) == if id == e.tmdb_id {
            Some(e)
        } else {
            lookup(s, id)
        },
{
    let f = s.filter(other_id(e.tmdb_id));
    lemma_lookup_push(f, e, id);
    if id == e.tmdb_id {
        lemma_lookup(f, id);
        assert forall|j: int| 0 <= j < f.len() implies #[trigger] f[j].tmdb_id != id by {
            s.lemma_filter_pred(other_id(e.tmdb_id), j);
        }
    } else {
        lemma_lookup_filter(s, e.tmdb_id, id);
        lemma_lookup(f, id);
        lemma_lookup(s, id);
    }
}

/// After removing an id nothing reads under it; every other id reads as
/// before.
pub proof fn lemma_get_after_remove(s: Seq<IndexEntry>, rid: u64, id: u64)
    ensures
        lookup(removed(s, rid), id) == if id == rid {
            None
        } else {
            lookup(s, id)
        },
{
    let f = s.filter(other_id(rid));
    if id == rid {
        lemma_lookup(f, id);
        assert forall|j: int| 0 <= j < f.len() implies #[trigger] f[j].tmdb_id != id by {
            s.lemma_filter_pred(other_id(rid), j);
        }
    } else {
        lemma_lookup_filter(s, rid, id);
    }
}

/// After adding, the index holds exactly one entry with the added id.
pub proof fn lemma_add_keeps_one(s: Seq<IndexEntry>, e: IndexEntry)
    ensures
        added(s, e).filter(|x: IndexEntry| x.tmdb_id == e.tmdb_id) == seq![e],
{
    let f = s.filter(other_id(e.tmdb_id));
    let p = |x: IndexEntry| x.tmdb_id == e.tmdb_id;
    f.lemma_filter_push(e, p);
    assert forall|j: int| 0 <= j < f.len() implies !p(#[trigger] f[j]) by {
        s.lemma_filter_pred(other_id(e.tmdb_id), j);
    }
    f.lemma_all_neg_filter_empty(p);
    assert(f.filter(p).push(e) =~= seq![e]);
}

impl LibraryIndex {
    /// An empty index for the library at `root`.
    pub fn new(root: String) -> (r: Self)
        ensures
            r.root == root,
            r.version == 0,
            r.entries@ == Seq::<IndexEntry>::empty(),
    {
        LibraryIndex { root, version: 0, entries: Vec::new() }
    }

    /// The library root.
    pub fn root(&self) -> (r: &str)
        ensures
            r@ == self.root@,
    {
        self.root.as_str()
    }

    /// Adds an entry, replacing any entry with the same TMDB id.
    pub fn add_entry(&mut self, entry: IndexEntry)
        ensures
            final(self).entries@ == added(old(self).entries@, entry),
            final(self).root == old(self).root,
            final(self).version == old(self).version,
    {
        let id = entry.tmdb_id;
        self.remove_entry(id);
        self.entries.push(entry);
    }

    /// Removes every entry with TMDB id `tmdb_id`.
    pub fn remove_entry(&mut self, tmdb_id: u64)
        ensures
            final(self).entries@ == removed(old(self).entries@, tmdb_id),
            final(self).root == old(self).root,
            final(self).version == old(self).version,
    {
        let ghost orig = self.entries@;
        let mut kept: Vec<IndexEntry> = Vec::new();
        let mut rest: Vec<IndexEntry> = Vec::new();
        std::mem::swap(&mut rest, &mut self.entries);
        let ghost n: int = orig.len() as int;
        while rest.len() > 0
            invariant
                n == orig.len(),
                rest@.len() <= n,
                rest@ == orig.subrange(n - rest@.len(), n),
                kept@ == orig.subrange(0, n - rest@.len()).filter(other_id(tmdb_id)),
            decreases rest@.len(),
        {
            let ghost k: int = n - rest@.len();
            let e = rest.remove(0);
            assert(e == orig[k]);
            assert(orig.subrange(0, k + 1) =~= orig.subrange(0, k).push(orig[k]));
            proof {
                orig.subrange(0, k).lemma_filter_push(orig[k], other_id(tmdb_id));
            }
            assert(rest@ =~= orig.subrange(k + 1, n));
            if e.tmdb_id != tmdb_id {
                kept.push(e);
            }
        }
        assert(orig.subrange(0, n) =~= orig);
        self.entries = kept;
    }

    /// The first entry with TMDB id `tmdb_id`.
    pub fn get_entry(&self, tmdb_id: u64) -> (r: Option<&IndexEntry>)
        ensures
            match r {
                Some(e) => lookup(self.entries@, tmdb_id) == Some(*e),
                None => lookup(self.entries@, tmdb_id) is None,
            },
    {
        let mut i: usize = 0;
        while i < self.entries.len()
            invariant
                i <= self.entries@.len(),
                find_from(self.entries@, tmdb_id, 0) == find_from(self.entries@, tmdb_id, i as int),
            decreases self.entries@.len() - i,
        {
            if self.entries[i].tmdb_id == tmdb_id {
                return Some(&self.entries[i]);
            }
            i += 1;
        }
        None
    }

    /// All entries, in index order.
    pub fn list_entries(&self) -> (r: &Vec<IndexEntry>)
        ensures
            r@ == self.entries@,
    {
        &self.entries
    }
}


/// An entry passes the library search: the query (when given) occurs in
/// the lower-cased title or director, the year (when bounded) is known and
/// within the bounds, and one of the genres (when given) equals the genre up
/// to ASCII case.
pub open spec fn entry_matches(
    query: Option<Seq<char>>,
    year_from: Option<u32>,
    year_to: Option<u32>,
    genre: Option<Seq<char>>,
) -> spec_fn(IndexEntry) -> bool {
    |e: IndexEntry|
        {
            &&& (query matches Some(q) ==> contains_seq(unicode_lower(e.title@), unicode_lower(q))
                || contains_seq(unicode_lower(e.director_display@), unicode_lower(q)))
            &&& (year_from matches Some(f) ==> (e.year matches Some(y) && y >= f))
            &&& (year_to matches Some(to) ==> (e.year matches Some(y) && y <= to))
            &&& (genre matches Some(g) ==> exists|i: int|
                0 <= i < e.genres@.len() && eq_ignore_ascii_case(#[trigger] e.genres@[i]@, g))
        }
}

/// The text of an optional string slice.
pub open spec fn opt_str(o: Option<&str>) -> Option<Seq<char>> {
    match o {
        Some(s) => Some(s@),
        None => None,
    }
}

/// On ASCII text, lower-casing maps `A`..`Z` to `a`..`z` and keeps every
/// other character.
pub open spec fn ascii_lowering(s: Seq<char>) -> bool {
    vstd::utf8::is_ascii_chars(s) ==> unicode_lower(s) == s.map_values(|c: char| crate::text::ascii_lower(c))
}

/// Lower-casing an entry's title and director follows the ASCII rule on
/// ASCII text.
pub open spec fn entry_lowering(e: IndexEntry) -> bool {
    ascii_lowering(e.title@) && ascii_lowering(e.director_display@)
}

/// The entries that references point at.
pub open spec fn derefs(s: Seq<&IndexEntry>) -> Seq<IndexEntry> {
    s.map_values(|x: &IndexEntry| *x)
}

/// Whether one of `genres` equals `g` up to ASCII case.
fn has_genre(genres: &Vec<String>, g: &Vec<char>) -> (r: bool)
    ensures
        r == exists|i: int| 0 <= i < genres@.len() && eq_ignore_ascii_case(#[trigger] genres@[i]@, g@),
{
    let mut i: usize = 0;
    while i < genres.len()
        invariant
            i <= genres@.len(),
            forall|j: int| 0 <= j < i ==> !eq_ignore_ascii_case(#[trigger] genres@[j]@, g@),
        decreases genres@.len() - i,
    {
        let c = chars_of(genres[i].as_str());
        if chars_eq_ignore_ascii_case(&c, g) {
            return true;
        }
        i += 1;
    }
    false
}

impl LibraryIndex {
    /// The entries that pass the search, in index order.
    pub fn search(
        &self,
        query: Option<&str>,
        year_from: Option<u32>,
        year_to: Option<u32>,
        genre: Option<&str>,
    ) -> (r: Vec<&IndexEntry>)
        ensures
            derefs(r@) == self.entries@.filter(
                entry_matches(opt_str(query), year_from, year_to, opt_str(genre)),
            ),
            query matches Some(q) ==> {
                &&& ascii_lowering(q@)
                &&& forall|i: int| 0 <= i < self.entries@.len() ==> entry_lowering(#[trigger] self.entries@[i])
            },
    {
        let ghost pred = entry_matches(opt_str(query), year_from, year_to, opt_str(genre));
        let q_lower: Option<Vec<char>> = match query {
            Some(q) => {
                let l = to_lowercase(q);
                Some(chars_of(l.as_str()))
            },
            None => None,
        };
        let g_chars: Option<Vec<char>> = match genre {
            Some(g) => Some(chars_of(g)),
            None => None,
        };
        let mut out: Vec<&IndexEntry> = Vec::new();
        let mut i: usize = 0;
        while i < self.entries.len()
            invariant
                i <= self.entries@.len(),
                pred == entry_matches(opt_str(query), year_from, year_to, opt_str(genre)),
                match query {
                    Some(q) => q_lower matches Some(l) && l@ == unicode_lower(q@) && ascii_lowering(q@),
                    None => q_lower is None,
                },
                query is Some ==> forall|j: int| 0 <= j < i ==> entry_lowering(#[trigger] self.entries@[j]),
                match genre {
                    Some(g) => g_chars matches Some(c) && c@ == g@,
                    None => g_chars is None,
                },
                derefs(out@) == self.entries@.take(i as int).filter(pred),
            decreases self.entries@.len() - i,
        {
            let e = &self.entries[i];
            let mut ok = true;
            match &q_lower {
                Some(l) => {
                    let t = to_lowercase(e.title.as_str());
                    let d = to_lowercase(e.director_display.as_str());
                    assert(ascii_lowering(e.title@));
                    assert(ascii_lowering(e.director_display@));
                    let tc = chars_of(t.as_str());
                    let dc = chars_of(d.as_str());
                    if !contains_chars(&tc, l) && !contains_chars(&dc, l) {
                        ok = false;
                    }
                },
                None => {},
            }
            match year_from {
                Some(f) => match e.year {
                    Some(y) => {
                        if y < f {
                            ok = false;
                        }
                    },
                    None => {
                        ok = false;
                    },
                },
                None => {},
            }
            match year_to {
                Some(to) => match e.year {
                    Some(y) => {
                        if y > to {
                            ok = false;
                        }
                    },
                    None => {
                        ok = false;
                    },
                },
                None => {},
            }
            match &g_chars {
                Some(g) => {
                    if !has_genre(&e.genres, g) {
                        ok = false;
                    }
                },
                None => {},
            }
            assert(ok == pred(self.entries@[i as int]));
            assert(query is Some ==> entry_lowering(self.entries@[i as int]));
            proof {
                assert(self.entries@.take(i + 1) =~= self.entries@.take(i as int).push(self.entries@[i as int]));
                self.entries@.take(i as int).lemma_filter_push(self.entries@[i as int], pred);
            }
            if ok {
                out.push(e);
                assert(derefs(out@) =~= derefs(out@.drop_last()).push(*e));
            }
            i += 1;
        }
        assert(self.entries@.take(i as int) =~= self.entries@);
        out
    }
}

/// `a` comes strictly before `b` in code-point order (the order of `str`).
pub open spec fn name_lt(a: Seq<char>, b: Seq<char>) -> bool {
    lex_le(codes(a), codes(b)) && a != b
}

/// The test "the director as shown is `d`".
pub open spec fn shown_director(d: Seq<char>) -> spec_fn(IndexEntry) -> bool {
    |e: IndexEntry| e.director_display@ == d
}

/// Some entry of `s` shows director `d`.
pub open spec fn shows_director(s: Seq<IndexEntry>, d: Seq<char>) -> bool {
    exists|k: int| 0 <= k < s.len() && #[trigger] s[k].director_display@ == d
}

/// Some group of `r` is named `d`.
pub open spec fn has_group(r: Seq<(String, Vec<&IndexEntry>)>, d: Seq<char>) -> bool {
    exists|i: int| 0 <= i < r.len() && #[trigger] r[i].0@ == d
}

/// `keys` holds `x`.
spec fn key_listed(keys: Seq<Vec<char>>, x: Seq<char>) -> bool {
    exists|i: int| 0 <= i < keys.len() && #[trigger] keys[i]@ == x
}

/// `keys` is in strictly increasing code-point order.
spec fn keys_ordered(keys: Seq<Vec<char>>) -> bool {
    forall|i: int, j: int| 0 <= i < j < keys.len() ==> name_lt(#[trigger] keys[i]@, #[trigger] keys[j]@)
}

proof fn lemma_name_lt_trans(a: Seq<char>, b: Seq<char>, c: Seq<char>)
    requires
        name_lt(a, b),
        name_lt(b, c),
    ensures
        name_lt(a, c),
{
    lemma_lex_trans(codes(a), codes(b), codes(c));
    if a == c {
        lemma_lex_antisym(codes(a), codes(b));
        lemma_codes_injective(a, b);
    }
}

/// Adds `k` to the ordered keys unless it is there.
fn insert_key(keys: &mut Vec<Vec<char>>, k: Vec<char>)
    requires
        keys_ordered(old(keys)@),
    ensures
        keys_ordered(final(keys)@),
        forall|x: Seq<char>| key_listed(final(keys)@, x) <==> (key_listed(old(keys)@, x) || x == k@),
{
    let ghost o = keys@;
    let mut p: usize = 0;
    while p < keys.len()
        invariant
            keys@ == o,
            o == old(keys)@,
            keys_ordered(o),
            p <= o.len(),
            forall|j: int| 0 <= j < p ==> name_lt(#[trigger] o[j]@, k@),
        decreases o.len() - p,
    {
        if chars_eq(&keys[p], &k) {
            assert(key_listed(o, k@));
            return;
        }
        if chars_lex_le(&k, &keys[p]) {
            let ghost kk = k@;
            keys.insert(p, k);
            let ghost nk = keys@;
            assert(nk == o.insert(p as int, nk[p as int]));
            assert(nk[p as int]@ == kk);
            assert(name_lt(kk, o[p as int]@));
            assert forall|i: int, j: int| 0 <= i < j < nk.len() implies name_lt(#[trigger] nk[i]@, #[trigger] nk[j]@) by {
                if j < p {
                    assert(nk[i] == o[i] && nk[j] == o[j]);
                } else if j == p {
                    assert(nk[i] == o[i]);
                } else if i == p {
                    assert(nk[j] == o[j - 1]);
                    if j - 1 > p {
                        lemma_name_lt_trans(kk, o[p as int]@, o[j - 1]@);
                    }
                } else if i < p {
                    assert(nk[i] == o[i] && nk[j] == o[j - 1]);
                } else {
                    assert(nk[i] == o[i - 1] && nk[j] == o[j - 1]);
                }
            }
            assert forall|x: Seq<char>| key_listed(nk, x) <==> (key_listed(o, x) || x == kk) by {
                if key_listed(nk, x) {
                    let i = choose|i: int| 0 <= i < nk.len() && #[trigger] nk[i]@ == x;
                    if i < p {
                        assert(nk[i] == o[i]);
                    } else if i > p {
                        assert(nk[i] == o[i - 1]);
                    }
                }
                if key_listed(o, x) {
                    let i = choose|i: int| 0 <= i < o.len() && #[trigger] o[i]@ == x;
                    if i < p {
                        assert(nk[i] == o[i]);
                    } else {
                        assert(nk[i + 1] == o[i]);
                    }
                }
                if x == kk {
                    assert(nk[p as int]@ == x);
                }
            }
            return;
        }
        proof {
            crate::sort::lemma_lex_total(codes(k@), codes(o[p as int]@));
            if k@ == o[p as int]@ {
            }
        }
        p += 1;
    }
    let ghost kk = k@;
    keys.push(k);
    let ghost nk = keys@;
    assert(nk == o.push(nk[o.len() as int]));
    assert forall|i: int, j: int| 0 <= i < j < nk.len() implies name_lt(#[trigger] nk[i]@, #[trigger] nk[j]@) by {
        assert(nk[i] == o[i]);
        if j < o.len() {
            assert(nk[j] == o[j]);
        }
    }
    assert forall|x: Seq<char>| key_listed(nk, x) <==> (key_listed(o, x) || x == kk) by {
        if key_listed(nk, x) {
            let i = choose|i: int| 0 <= i < nk.len() && #[trigger] nk[i]@ == x;
            if i < o.len() {
                assert(nk[i] == o[i]);
            }
        }
        if key_listed(o, x) {
            let i = choose|i: int| 0 <= i < o.len() && #[trigger] o[i]@ == x;
            assert(nk[i] == o[i]);
        }
        if x == kk {
            assert(nk[o.len() as int]@ == x);
        }
    }
}

impl LibraryIndex {
    /// The entries grouped by the director as shown: one group per
    /// director, groups in code-point order of the name, each group's
    /// entries in index order.
    pub fn list_by_director(&self) -> (r: Vec<(String, Vec<&IndexEntry>)>)
        ensures
            forall|i: int, j: int| 0 <= i < j < r@.len() ==> name_lt(#[trigger] r@[i].0@, #[trigger] r@[j].0@),
            forall|i: int| 0 <= i < r@.len() ==> shows_director(self.entries@, #[trigger] r@[i].0@),
            forall|k: int| 0 <= k < self.entries@.len() ==> has_group(r@, #[trigger] self.entries@[k].director_display@),
            forall|i: int| 0 <= i < r@.len() ==> derefs(#[trigger] r@[i].1@) == self.entries@.filter(shown_director(r@[i].0@)),
    {
        let mut keys: Vec<Vec<char>> = Vec::new();
        let mut i: usize = 0;
        while i < self.entries.len()
            invariant
                i <= self.entries@.len(),
                keys_ordered(keys@),
                forall|x: Seq<char>| key_listed(keys@, x) <==> shows_director(self.entries@.take(i as int), x),
            decreases self.entries@.len() - i,
        {
            let k = chars_of(self.entries[i].director_display.as_str());
            let ghost before = keys@;
            insert_key(&mut keys, k);
            assert forall|x: Seq<char>| key_listed(keys@, x) <==> shows_director(self.entries@.take(i + 1), x) by {
                let s = self.entries@.take(i + 1);
                if shows_director(s, x) {
                    let m = choose|m: int| 0 <= m < s.len() && #[trigger] s[m].director_display@ == x;
                    if m < i {
                        assert(self.entries@.take(i as int)[m] == s[m]);
                    }
                }
                if shows_director(self.entries@.take(i as int), x) {
                    let m = choose|m: int| 0 <= m < i && #[trigger] self.entries@.take(i as int)[m].director_display@ == x;
                    assert(s[m] == self.entries@.take(i as int)[m]);
                }
                if x == self.entries@[i as int].director_display@ {
                    assert(s[i as int] == self.entries@[i as int]);
                }
            }
            i += 1;
        }
        assert(self.entries@.take(i as int) =~= self.entries@);
        let mut out: Vec<(String, Vec<&IndexEntry>)> = Vec::new();
        let mut g: usize = 0;
        while g < keys.len()
            invariant
                g <= keys@.len(),
                keys_ordered(keys@),
                forall|x: Seq<char>| key_listed(keys@, x) <==> shows_director(self.entries@, x),
                out@.len() == g,
                forall|m: int| 0 <= m < g ==> (#[trigger] out@[m]).0@ == keys@[m]@,
                forall|m: int| 0 <= m < g ==> derefs((#[trigger] out@[m]).1@) == self.entries@.filter(shown_director(keys@[m]@)),
            decreases keys@.len() - g,
        {
            let key = &keys[g];
            let ghost pred = shown_director(key@);
            let mut group: Vec<&IndexEntry> = Vec::new();
            let mut j: usize = 0;
            while j < self.entries.len()
                invariant
                    j <= self.entries@.len(),
                    pred == shown_director(key@),
                    derefs(group@) == self.entries@.take(j as int).filter(pred),
                decreases self.entries@.len() - j,
            {
                let e = &self.entries[j];
                let d = chars_of(e.director_display.as_str());
                let same = chars_eq(&d, key);
                proof {
                    assert(self.entries@.take(j + 1) =~= self.entries@.take(j as int).push(self.entries@[j as int]));
                    self.entries@.take(j as int).lemma_filter_push(self.entries@[j as int], pred);
                }
                if same {
                    group.push(e);
                    assert(derefs(group@) =~= derefs(group@.drop_last()).push(*e));
                }
                j += 1;
            }
            assert(self.entries@.take(j as int) =~= self.entries@);
            let name = string_of(key);
            out.push((name, group));
            g += 1;
        }
        assert forall|i: int| 0 <= i < out@.len() implies shows_director(self.entries@, #[trigger] out@[i].0@) by {
            assert(key_listed(keys@, keys@[i]@));
        }
        assert forall|k: int| 0 <= k < self.entries@.len() implies has_group(out@, #[trigger] self.entries@[k].director_display@) by {
            let x = self.entries@[k].director_display@;
            assert(shows_director(self.entries@, x));
            assert(key_listed(keys@, x));
            let i = choose|i: int| 0 <= i < keys@.len() && #[trigger] keys@[i]@ == x;
            assert(out@[i].0@ == x);
        }
        assert forall|i: int, j: int| 0 <= i < j < out@.len() implies name_lt(#[trigger] out@[i].0@, #[trigger] out@[j].0@) by {
            assert(name_lt(keys@[i]@, keys@[j]@));
        }
        out
    }
}

/// Probe results as a map from file name: a later pair for the same name
/// wins.
pub open spec fn media_map(s: Seq<(String, FileMediaInfo)>) -> Map<Seq<char>, FileMediaInfo>
    decreases s.len(),
{
    if s.len() == 0 {
        Map::empty()
    } else {
        media_map(s.drop_last()).insert(s.last().0@, s.last().1)
    }
}

proof fn lemma_media_map_update(
    s: Seq<(String, FileMediaInfo)>,
    i: int,
    pair: (String, FileMediaInfo),
)
    requires
        0 <= i < s.len(),
        s[i].0@ == pair.0@,
        forall|j: int| i < j < s.len() ==> #[trigger] s[j].0@ != pair.0@,
    ensures
        media_map(s.update(i, pair)) == media_map(s).insert(pair.0@, pair.1),
    decreases s.len(),
{
    let u = s.update(i, pair);
    if i == s.len() - 1 {
        assert(u.drop_last() =~= s.drop_last());
        assert(media_map(u) =~= media_map(s).insert(pair.0@, pair.1));
    } else {
        assert(u.drop_last() =~= s.drop_last().update(i, pair));
        lemma_media_map_update(s.drop_last(), i, pair);
        assert(s.last().0@ != pair.0@);
        assert(media_map(u) =~= media_map(s).insert(pair.0@, pair.1));
    }
}

/// Records the probe result of `name`, replacing an earlier one.
fn set_media(m: &mut Vec<(String, FileMediaInfo)>, name: String, info: FileMediaInfo)
    ensures
        media_map(final(m)@) == media_map(old(m)@).insert(name@, info),
{
    let mut i: usize = m.len();
    while i > 0
        invariant
            i <= m@.len(),
            m@ == old(m)@,
            forall|j: int| i <= j < m@.len() ==> #[trigger] m@[j].0@ != name@,
        decreases i,
    {
        let same = m[i - 1].0 == name;
        if same {
            let ghost k = name@;
            let ghost pair = (name, info);
            proof {
                lemma_media_map_update(m@, i - 1, pair);
            }
            m.set(i - 1, (name, info));
            assert(m@ == old(m)@.update(i - 1, pair));
            return;
        }
        i -= 1;
    }
    let ghost pair = (name, info);
    m.push((name, info));
    assert(m@.drop_last() =~= old(m)@);
}

/// An entry after applying TMDB metadata: title, year and genres are
/// replaced when given; poster, overview, rating, credits and original
/// title are replaced always.
pub open spec fn with_metadata(e: IndexEntry, m: EntryMetadata) -> IndexEntry {
    IndexEntry {
        title: match m.title {
            Some(t) => t,
            None => e.title,
        },
        year: match m.year {
            Some(y) => Some(y),
            None => e.year,
        },
        genres: match m.genres {
            Some(g) => g,
            None => e.genres,
        },
        poster_url: m.poster_url,
        overview: m.overview,
        rating_bits: m.rating_bits,
        credits: m.credits,
        original_title: m.original_title,
        ..e
    }
}

impl LibraryIndex {
    /// The position of the first entry with TMDB id `tmdb_id`.
    fn position(&self, tmdb_id: u64) -> (r: Option<usize>)
        ensures
            match r {
                Some(i) => find_from(self.entries@, tmdb_id, 0) == Some(i as int),
                None => find_from(self.entries@, tmdb_id, 0) is None,
            },
    {
        let mut i: usize = 0;
        while i < self.entries.len()
            invariant
                i <= self.entries@.len(),
                find_from(self.entries@, tmdb_id, 0) == find_from(self.entries@, tmdb_id, i as int),
            decreases self.entries@.len() - i,
        {
            if self.entries[i].tmdb_id == tmdb_id {
                return Some(i);
            }
            i += 1;
        }
        None
    }

    /// Applies TMDB metadata to the first entry with TMDB id `tmdb_id` and
    /// gives the updated entry, none when there is no such entry.
    pub fn update_entry_metadata(&mut self, tmdb_id: u64, meta: EntryMetadata) -> (r: Option<&IndexEntry>)
        ensures
            match find_from(old(self).entries@, tmdb_id, 0) {
                Some(i) => final(self).entries@ == old(self).entries@.update(
                    i,
                    with_metadata(old(self).entries@[i], meta),
                ) && r == Some(&with_metadata(old(self).entries@[i], meta)),
                None => r is None && final(self).entries@ == old(self).entries@,
            },
            final(self).root == old(self).root,
            final(self).version == old(self).version,
    {
        let ghost before = self.entries@;
        proof {
            lemma_find_from_bounds(before, tmdb_id, 0);
        }
        if self.apply_metadata(tmdb_id, meta) {
            proof {
                let i = find_from(before, tmdb_id, 0)->0;
                assert forall|j: int| 0 <= j < i implies #[trigger] self.entries@[j].tmdb_id != tmdb_id by {
                    assert(self.entries@[j] == before[j]);
                }
                lemma_find_first(self.entries@, tmdb_id, 0, i);
            }
            self.get_entry(tmdb_id)
        } else {
            None
        }
    }

    /// Applies TMDB metadata to the first entry with TMDB id `tmdb_id`;
    /// whether there is one.
    fn apply_metadata(&mut self, tmdb_id: u64, meta: EntryMetadata) -> (r: bool)
        ensures
            match find_from(old(self).entries@, tmdb_id, 0) {
                Some(i) => r && final(self).entries@ == old(self).entries@.update(
                    i,
                    with_metadata(old(self).entries@[i], meta),
                ),
                None => !r && final(self).entries@ == old(self).entries@,
            },
            final(self).root == old(self).root,
            final(self).version == old(self).version,
    {
        match self.position(tmdb_id) {
            Some(i) => {
                proof {
                    lemma_find_from_bounds(self.entries@, tmdb_id, 0);
                }
                let ghost before = self.entries@;
                let mut e = self.entries.remove(i);
                match meta.title {
                    Some(t) => {
                        e.title = t;
                    },
                    None => {},
                }
                match meta.year {
                    Some(y) => {
                        e.year = Some(y);
                    },
                    None => {},
                }
                match meta.genres {
                    Some(g) => {
                        e.genres = g;
                    },
                    None => {},
                }
                e.poster_url = meta.poster_url;
                e.overview = meta.overview;
                e.rating_bits = meta.rating_bits;
                e.credits = meta.credits;
                e.original_title = meta.original_title;
                let ghost ne = e;
                self.entries.insert(i, e);
                assert(self.entries@ =~= before.update(i as int, ne));
                true
            },
            None => false,
        }
    }

    /// Records the probe result of a file of the first entry with TMDB id
    /// `tmdb_id`; whether there is one.
    pub fn set_file_media_info(&mut self, tmdb_id: u64, filename: &str, info: FileMediaInfo) -> (r: bool)
        ensures
            match find_from(old(self).entries@, tmdb_id, 0) {
                Some(i) => r && final(self).entries@.len() == old(self).entries@.len()
                    && (forall|j: int| 0 <= j < old(self).entries@.len() && j != i ==> #[trigger] final(self).entries@[j] == old(self).entries@[j])
                    && final(self).entries@[i] == (IndexEntry {
                        media_info: final(self).entries@[i].media_info,
                        ..old(self).entries@[i]
                    })
                    && media_map(final(self).entries@[i].media_info@) == media_map(old(self).entries@[i].media_info@).insert(filename@, info),
                None => !r && final(self).entries@ == old(self).entries@,
            },
            final(self).root == old(self).root,
            final(self).version == old(self).version,
    {
        match self.position(tmdb_id) {
            Some(i) => {
                proof {
                    lemma_find_from_bounds(self.entries@, tmdb_id, 0);
                }
                let ghost before = self.entries@;
                let mut e = self.entries.remove(i);
                let name = string_of(&chars_of(filename));
                set_media(&mut e.media_info, name, info);
                let ghost ne = e;
                self.entries.insert(i, e);
                assert(self.entries@ =~= before.update(i as int, ne));
                true
            },
            None => false,
        }
    }

    /// Replaces the file list of the first entry with TMDB id `tmdb_id`.
    pub fn update_files(&mut self, tmdb_id: u64, files: Vec<String>)
        ensures
            match find_from(old(self).entries@, tmdb_id, 0) {
                Some(i) => final(self).entries@ == old(self).entries@.update(
                    i,
                    IndexEntry { files: files, ..old(self).entries@[i] },
                ),
                None => final(self).entries@ == old(self).entries@,
            },
            final(self).root == old(self).root,
            final(self).version == old(self).version,
    {
        match self.position(tmdb_id) {
            Some(i) => {
                proof {
                    lemma_find_from_bounds(self.entries@, tmdb_id, 0);
                }
                let ghost before = self.entries@;
                let mut e = self.entries.remove(i);
                e.files = files;
                let ghost ne = e;
                self.entries.insert(i, e);
                assert(self.entries@ =~= before.update(i as int, ne));
            },
            None => {},
        }
    }

    /// Replaces all entries by those recovered from the directories on
    /// disk, and marks the index as rebuilt (version 1).
    pub fn rebuild_with(&mut self, entries: Vec<IndexEntry>)
        ensures
            final(self).entries == entries,
            final(self).version == 1,
            final(self).root == old(self).root,
    {
        self.entries = entries;
        self.version = 1;
    }
}


/// The entry recovered from the directory `{director_dir}/{id_dir}` of the
/// library when the index is rebuilt from disk: only the id (the directory
/// name read as a number), the director, the path and the files are known;
/// the title reads `Unknown ({id})`.  `None` when the directory name is not
/// a number.
pub open spec fn recovered(
    director_dir: Seq<char>,
    director: String,
    id_dir: Seq<char>,
    files: Vec<String>,
    added_at: String,
    e: IndexEntry,
) -> bool {
    parsed_u64(id_dir) matches Some(id) && {
        &&& e.tmdb_id == id
        &&& e.title@ == "Unknown ("@ + decimal(id as nat) + ")"@
        &&& e.director == director
        &&& e.director_display@ == director_dir
        &&& e.year is None
        &&& e.genres@.len() == 0
        &&& e.path@ == director_dir + "/"@ + id_dir
        &&& e.files == files
        &&& e.added_at == added_at
        &&& e.poster_url is None
        &&& e.overview is None
        &&& e.rating_bits is None
        &&& e.credits@.len() == 0
        &&& e.original_title is None
        &&& e.media_info@.len() == 0
    }
}

/// The entry for the film directory `{director_dir}/{id_dir}` found on
/// disk, or `None` when `id_dir` is not a TMDB id.
pub fn recovered_entry(
    director_dir: &str,
    director: String,
    id_dir: &str,
    files: Vec<String>,
    added_at: String,
) -> (r: Option<IndexEntry>)
    ensures
        match r {
            Some(e) => recovered(director_dir@, director, id_dir@, files, added_at, e),
            None => parsed_u64(id_dir@) is None,
        },
{
    let id = match parse_u64(id_dir) {
        Some(id) => id,
        None => {
            return None;
        },
    };
    let mut title: Vec<char> = Vec::new();
    push_str(&mut title, "Unknown (");
    push_decimal(&mut title, id);
    push_str(&mut title, ")");
    let mut path: Vec<char> = Vec::new();
    push_str(&mut path, director_dir);
    push_str(&mut path, "/");
    push_str(&mut path, id_dir);
    proof {
        reveal_strlit("Unknown (");
        reveal_strlit(")");
        reveal_strlit("/");
    }
    let e = IndexEntry {
        tmdb_id: id,
        title: string_of(&title),
        director,
        director_display: string_of(&chars_of(director_dir)),
        year: None,
        genres: Vec::new(),
        path: string_of(&path),
        files,
        added_at,
        poster_url: None,
        overview: None,
        rating_bits: None,
        credits: Vec::new(),
        original_title: None,
        media_info: Vec::new(),
    };
    assert(e.title@ =~= "Unknown ("@ + decimal(id as nat) + ")"@);
    assert(e.path@ =~= director_dir@ + "/"@ + id_dir@);
    Some(e)
}

/// The position of the last `.` in `s[..i]`.
pub open spec fn last_dot(s: Seq<char>, i: int) -> Option<int>
    decreases i,
{
    if i <= 0 || i > s.len() {
        None
    } else if s[i - 1] == '.' {
        Some(i - 1)
    } else {
        last_dot(s, i - 1)
    }
}

/// The extension of a file name (`Path::extension`): the text after the
/// last `.`, none when there is no `.` or the only one opens the name.
pub open spec fn file_ext(name: Seq<char>) -> Option<Seq<char>> {
    match last_dot(name, name.len() as int) {
        Some(p) => if p > 0 {
            Some(name.skip(p + 1))
        } else {
            None
        },
        None => None,
    }
}

/// The extensions of video files.
pub open spec fn is_video_ext(e: Seq<char>) -> bool {
    e == "mp4"@ || e == "mkv"@ || e == "avi"@ || e == "mov"@ || e == "ts"@ || e == "flv"@
        || e == "wmv"@ || e == "webm"@ || e == "m4v"@
}

/// The extensions of audio files.
pub open spec fn is_audio_ext(e: Seq<char>) -> bool {
    e == "mp3"@ || e == "aac"@ || e == "flac"@ || e == "opus"@ || e == "m4a"@ || e == "wav"@
        || e == "ogg"@ || e == "ac3"@ || e == "dts"@ || e == "mka"@
}

/// The extensions of subtitle files.
pub open spec fn is_subtitle_ext(e: Seq<char>) -> bool {
    e == "srt"@ || e == "ass"@ || e == "sub"@ || e == "idx"@
}

/// A file name is listed in an entry: not one of the generated overlays
/// (`.blowup_…`), with an extension that, lower-cased, is one of video,
/// audio or subtitles.
pub open spec fn is_listed_file(name: Seq<char>) -> bool {
    &&& !(name.len() >= 8 && name.take(8) == ".blowup_"@)
    &&& file_ext(name) matches Some(x) && {
        let l = unicode_lower(x);
        is_video_ext(l) || is_audio_ext(l) || is_subtitle_ext(l)
    }
}

/// The extension of a file name.
fn file_ext_exec(name: &Vec<char>) -> (r: Option<Vec<char>>)
    ensures
        match r {
            Some(x) => file_ext(name@) == Some(x@),
            None => file_ext(name@) is None,
        },
{
    let mut i = name.len();
    while i > 0 && name[i - 1] != '.'
        invariant
            i <= name@.len(),
            last_dot(name@, name@.len() as int) == last_dot(name@, i as int),
        decreases i,
    {
        i -= 1;
    }
    if i <= 1 {
        return None;
    }
    let mut out: Vec<char> = Vec::new();
    let mut j = i;
    while j < name.len()
        invariant
            i <= j <= name@.len(),
            out@ == name@.subrange(i as int, j as int),
        decreases name@.len() - j,
    {
        out.push(name[j]);
        assert(name@.subrange(i as int, j + 1) =~= name@.subrange(i as int, j as int).push(name@[j as int]));
        j += 1;
    }
    assert(out@ =~= name@.skip(i as int));
    Some(out)
}

/// Whether `e` is a video extension.
fn video_ext(e: &Vec<char>) -> (r: bool)
    ensures
        r == is_video_ext(e@),
{
    chars_eq_str(e, "mp4") || chars_eq_str(e, "mkv") || chars_eq_str(e, "avi") || chars_eq_str(e, "mov")
        || chars_eq_str(e, "ts") || chars_eq_str(e, "flv") || chars_eq_str(e, "wmv")
        || chars_eq_str(e, "webm") || chars_eq_str(e, "m4v")
}

/// Whether `e` is an audio extension.
fn audio_ext(e: &Vec<char>) -> (r: bool)
    ensures
        r == is_audio_ext(e@),
{
    chars_eq_str(e, "mp3") || chars_eq_str(e, "aac") || chars_eq_str(e, "flac") || chars_eq_str(e, "opus")
        || chars_eq_str(e, "m4a") || chars_eq_str(e, "wav") || chars_eq_str(e, "ogg")
        || chars_eq_str(e, "ac3") || chars_eq_str(e, "dts") || chars_eq_str(e, "mka")
}

/// Whether `e` is a subtitle extension.
fn subtitle_ext(e: &Vec<char>) -> (r: bool)
    ensures
        r == is_subtitle_ext(e@),
{
    chars_eq_str(e, "srt") || chars_eq_str(e, "ass") || chars_eq_str(e, "sub") || chars_eq_str(e, "idx")
}

/// The extension of `name`, lower-cased.
fn lower_ext(name: &str) -> (r: Option<Vec<char>>)
    ensures
        match r {
            Some(l) => file_ext(name@) matches Some(x) && l@ == unicode_lower(x),
            None => file_ext(name@) is None,
        },
{
    let c = chars_of(name);
    match file_ext_exec(&c) {
        Some(x) => {
            let xs = string_of(&x);
            let l = to_lowercase(xs.as_str());
            Some(chars_of(l.as_str()))
        },
        None => None,
    }
}

/// Whether a file found in a film directory belongs in its file list.
pub fn is_listed_file_name(name: &str) -> (r: bool)
    ensures
        r == is_listed_file(name@),
{
    let c = chars_of(name);
    let mut generated = false;
    if c.len() >= 8 {
        let mut head: Vec<char> = Vec::new();
        let mut i: usize = 0;
        while i < 8
            invariant
                c@.len() >= 8,
                i <= 8,
                head@ == c@.take(i as int),
            decreases 8 - i,
        {
            head.push(c[i]);
            assert(c@.take(i + 1) =~= c@.take(i as int).push(c@[i as int]));
            i += 1;
        }
        generated = chars_eq_str(&head, ".blowup_");
    }
    if generated {
        return false;
    }
    match lower_ext(name) {
        Some(l) => video_ext(&l) || audio_ext(&l) || subtitle_ext(&l),
        None => false,
    }
}

/// `s[a..b]` is a named component: not empty and not `.`.
pub open spec fn named_component(s: Seq<char>, a: int, b: int) -> bool {
    b > a && s.subrange(a, b) != seq!['.']
}

/// The bounds of the last named component of `s[..end]`, reading back from
/// `i`, where `s[i..end]` holds no `/`.
pub open spec fn last_component(s: Seq<char>, i: int, end: int) -> Option<(int, int)>
    decreases i,
{
    if i <= 0 {
        if named_component(s, 0, end) { Some((0, end)) } else { None }
    } else if s[i - 1] == '/' {
        if named_component(s, i, end) { Some((i, end)) } else { last_component(s, i - 1, i - 1) }
    } else {
        last_component(s, i - 1, end)
    }
}

/// The file name of a path (`Path::file_name` on Unix): its last component
/// other than empty ones and `.`, none when there is none or it is `..`.
pub open spec fn path_file_name(p: Seq<char>) -> Option<Seq<char>> {
    match last_component(p, p.len() as int, p.len() as int) {
        Some((a, b)) => if p.subrange(a, b) == ".."@ {
            None
        } else {
            Some(p.subrange(a, b))
        },
        None => None,
    }
}

/// A path names a video: its file name has an extension that, lower-cased,
/// is a video one (`Path::extension`, so a name such as `.mkv` has none).
pub open spec fn is_video_name(path: Seq<char>) -> bool {
    path_file_name(path) matches Some(f) && file_ext(f) matches Some(x) && is_video_ext(unicode_lower(x))
}

/// Whether `p[a..b]` is a named component.
fn is_named(p: &Vec<char>, a: usize, b: usize) -> (r: bool)
    requires
        a <= b <= p@.len(),
    ensures
        r == named_component(p@, a as int, b as int),
{
    if b == a {
        return false;
    }
    if b - a == 1 {
        assert(p@.subrange(a as int, b as int) =~= seq![p@[a as int]]);
        assert(p@[a as int] != '.' ==> seq![p@[a as int]][0] != seq!['.'][0]);
        return p[a] != '.';
    }
    assert(p@.subrange(a as int, b as int).len() != seq!['.'].len());
    true
}

/// The file name of a path.
fn file_name_exec(p: &Vec<char>) -> (r: Option<Vec<char>>)
    ensures
        match r {
            Some(f) => path_file_name(p@) == Some(f@),
            None => path_file_name(p@) is None,
        },
{
    let n = p.len();
    let mut i = n;
    let mut end = n;
    let mut found = false;
    while i > 0 && !found
        invariant
            0 <= i <= end <= n,
            n == p@.len(),
            !found ==> last_component(p@, n as int, n as int) == last_component(p@, i as int, end as int),
            found ==> last_component(p@, n as int, n as int) == Some((i as int, end as int)),
        decreases i + (if found { 0int } else { 1int }),
    {
        if p[i - 1] == '/' {
            if is_named(p, i, end) {
                found = true;
            } else {
                i -= 1;
                end = i;
            }
        } else {
            i -= 1;
        }
    }
    if !found {
        if !is_named(p, 0, end) {
            return None;
        }
    }
    let mut out: Vec<char> = Vec::new();
    let mut j = i;
    while j < end
        invariant
            i <= j <= end <= n,
            n == p@.len(),
            out@ == p@.subrange(i as int, j as int),
        decreases end - j,
    {
        out.push(p[j]);
        assert(p@.subrange(i as int, j + 1) =~= p@.subrange(i as int, j as int).push(p@[j as int]));
        j += 1;
    }
    proof {
        reveal_strlit("..");
    }
    if out.len() == 2 && out[0] == '.' && out[1] == '.' {
        assert(out@ =~= ".."@);
        return None;
    }
    proof {
        if out@ == ".."@ {
            assert(out@[0] == '.' && out@[1] == '.');
        }
    }
    Some(out)
}

/// Whether a path names a video.
pub fn is_video_file(path: &str) -> (r: bool)
    ensures
        r == is_video_name(path@),
{
    let c = chars_of(path);
    let f = match file_name_exec(&c) {
        Some(f) => f,
        None => {
            return false;
        },
    };
    match file_ext_exec(&f) {
        Some(x) => {
            let xs = string_of(&x);
            let l = to_lowercase(xs.as_str());
            video_ext(&chars_of(l.as_str()))
        },
        None => false,
    }
}
} // verus!
