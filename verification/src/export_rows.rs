//! The knowledge base as exported to and imported from a file: its rows,
//! and the counts of an import.
use vstd::prelude::*;

verus! {

#[derive(Debug, Clone)]
pub struct PersonRow {
    pub id: i64,
    pub tmdb_id: Option<i64>,
    pub name: String,
    pub born_date: Option<String>,
    pub biography: Option<String>,
    pub nationality: Option<String>,
    pub primary_role: String,
}

#[derive(Debug, Clone)]
pub struct GenreRow {
    pub id: i64,
    pub name: String,
    pub description: Option<String>,
    pub parent_id: Option<i64>,
    pub period: Option<String>,
}

#[derive(Debug, Clone)]
pub struct PersonFilmRow {
    pub person_id: i64,
    pub film_id: i64,
    pub role: String,
}

#[derive(Debug, Clone)]
pub struct FilmGenreRow {
    pub film_id: i64,
    pub genre_id: i64,
}

#[derive(Debug, Clone)]
pub struct PersonGenreRow {
    pub person_id: i64,
    pub genre_id: i64,
}

#[derive(Debug, Clone)]
pub struct PersonRelationRow {
    pub from_id: i64,
    pub to_id: i64,
    pub relation_type: String,
}

#[derive(Debug, Clone)]
pub struct WikiEntryRow {
    pub id: i64,
    pub entity_type: String,
    pub entity_id: i64,
    pub content: String,
}

#[derive(Debug, Clone)]
pub struct FilmRow {
    pub id: i64,
    pub tmdb_id: Option<i64>,
    pub title: String,
    pub original_title: Option<String>,
    pub year: Option<i64>,
    pub overview: Option<String>,
    /// The TMDB rating, as the bits of an `f64`.
    pub tmdb_rating_bits: Option<u64>,
    pub poster_cache_path: Option<String>,
}

#[derive(Debug, Clone)]
pub struct ReviewRow {
    pub id: i64,
    pub film_id: i64,
    pub is_personal: i64,
    pub author: Option<String>,
    pub content: String,
    /// The rating, as the bits of an `f64`.
    pub rating_bits: Option<u64>,
}

/// Everything the knowledge base holds, as exported to a file.
#[derive(Debug)]
pub struct KnowledgeBaseExport {
    pub version: String,
    pub exported_at: String,
    pub people: Vec<PersonRow>,
    pub genres: Vec<GenreRow>,
    pub films: Vec<FilmRow>,
    pub person_films: Vec<PersonFilmRow>,
    pub film_genres: Vec<FilmGenreRow>,
    pub person_genres: Vec<PersonGenreRow>,
    pub person_relations: Vec<PersonRelationRow>,
    pub wiki_entries: Vec<WikiEntryRow>,
    pub reviews: Vec<ReviewRow>,
}

/// The version written into an export.
pub open spec fn export_version() -> Seq<char> {
    "2.0.0"@
}

impl KnowledgeBaseExport {
    /// An export of the given tables, stamped with the export version.
    pub fn new(
        exported_at: String,
        people: Vec<PersonRow>,
        genres: Vec<GenreRow>,
        films: Vec<FilmRow>,
        person_films: Vec<PersonFilmRow>,
        film_genres: Vec<FilmGenreRow>,
        person_genres: Vec<PersonGenreRow>,
        person_relations: Vec<PersonRelationRow>,
        wiki_entries: Vec<WikiEntryRow>,
        reviews: Vec<ReviewRow>,
    ) -> (r: Self)
        ensures
            r.version@ == export_version(),
            r.exported_at == exported_at,
            r.people == people,
            r.genres == genres,
            r.films == films,
            r.person_films == person_films,
            r.film_genres == film_genres,
            r.person_genres == person_genres,
            r.person_relations == person_relations,
            r.wiki_entries == wiki_entries,
            r.reviews == reviews,
    {
        let v = crate::text::chars_of("2.0.0");
        proof {
            reveal_strlit("2.0.0");
        }
        KnowledgeBaseExport {
            version: crate::text::string_of(&v),
            exported_at,
            people,
            genres,
            films,
            person_films,
            film_genres,
            person_genres,
            person_relations,
            wiki_entries,
            reviews,
        }
    }
}

/// The tables whose imported rows are counted.
#[derive(Debug, Clone, Copy, PartialEq, Eq)]
pub enum ImportTable {
    People,
    Genres,
    Films,
    Wiki,
    Reviews,
}

/// How many rows of each table an import added.
#[derive(Debug, Clone, Copy, PartialEq, Eq)]
pub struct ImportStats {
    pub people: i64,
    pub genres: i64,
    pub films: i64,
    pub wiki: i64,
    pub reviews: i64,
}

/// A row of people, genres, films or reviews is imported only when no row
/// with its id is there (`existing` is how many there are).
pub fn should_import(existing: i64) -> (r: bool)
    ensures
        r == (existing <= 0),
{
    existing <= 0
}

impl ImportStats {
    /// Nothing imported yet.
    pub fn new() -> (r: Self)
        ensures
            r == (ImportStats { people: 0, genres: 0, films: 0, wiki: 0, reviews: 0 }),
    {
        ImportStats { people: 0, genres: 0, films: 0, wiki: 0, reviews: 0 }
    }

    /// The count of a table.
    pub open spec fn count(&self, t: ImportTable) -> i64 {
        match t {
            ImportTable::People => self.people,
            ImportTable::Genres => self.genres,
            ImportTable::Films => self.films,
            ImportTable::Wiki => self.wiki,
            ImportTable::Reviews => self.reviews,
        }
    }

    /// Counts one more row imported into `t`.
    pub fn record(&mut self, t: ImportTable)
        requires
            old(self).count(t) < i64::MAX,
        ensures
            final(self).count(t) == old(self).count(t) + 1,
            forall|u: ImportTable| u != t ==> final(self).count(u) == old(self).count(u),
    {
        match t {
            ImportTable::People => self.people = self.people + 1,
            ImportTable::Genres => self.genres = self.genres + 1,
            ImportTable::Films => self.films = self.films + 1,
            ImportTable::Wiki => self.wiki = self.wiki + 1,
            ImportTable::Reviews => self.reviews = self.reviews + 1,
        }
    }

    /// The message shown after an import:
    /// `导入完成: {people} 影人, {genres} 流派, {films} 影片, {wiki} 条 Wiki, {reviews} 条评论`.
    pub fn summary(&self) -> (r: String)
        ensures
            r@ == "导入完成: "@ + crate::text::signed_decimal(self.people as int) + " 影人, "@
                + crate::text::signed_decimal(self.genres as int) + " 流派, "@ + crate::text::signed_decimal(
                self.films as int,
            ) + " 影片, "@ + crate::text::signed_decimal(self.wiki as int) + " 条 Wiki, "@
                + crate::text::signed_decimal(self.reviews as int) + " 条评论"@,
    {
        let mut v: Vec<char> = Vec::new();
        crate::text::push_str(&mut v, "导入完成: ");
        crate::text::push_signed(&mut v, self.people);
        crate::text::push_str(&mut v, " 影人, ");
        crate::text::push_signed(&mut v, self.genres);
        crate::text::push_str(&mut v, " 流派, ");
        crate::text::push_signed(&mut v, self.films);
        crate::text::push_str(&mut v, " 影片, ");
        crate::text::push_signed(&mut v, self.wiki);
        crate::text::push_str(&mut v, " 条 Wiki, ");
        crate::text::push_signed(&mut v, self.reviews);
        crate::text::push_str(&mut v, " 条评论");
        crate::text::string_of(&v)
    }
}

/// The message of an export file that is not valid JSON:
/// `JSON 解析失败: {error}` ("JSON parsing failed").
pub fn json_parse_failure(error: &str) -> (r: String)
    ensures
        r@ == "JSON 解析失败: "@ + error@,
{
    let mut v: Vec<char> = Vec::new();
    crate::text::push_str(&mut v, "JSON 解析失败: ");
    crate::text::push_str(&mut v, error);
    crate::text::string_of(&v)
}

/// Importing rows with ids `ids` into a table holding ids `db`, in order:
/// a row whose id is there is skipped, any other is added.  The result is
/// the ids held afterwards and how many rows were added.
pub open spec fn import_ids(db: Set<i64>, ids: Seq<i64>) -> (Set<i64>, nat)
    decreases ids.len(),
{
    if ids.len() == 0 {
        (db, 0)
    } else {
        let (d, n) = import_ids(db, ids.drop_last());
        if d.contains(ids.last()) {
            (d, n)
        } else {
            (d.insert(ids.last()), n + 1)
        }
    }
}

/// How many of `ids` equal `id`, as a count of rows.
fn count_id(ids: &Vec<i64>, id: i64) -> (r: i64)
    requires
        ids@.len() < i64::MAX,
    ensures
        0 <= r,
        (r > 0) == ids@.contains(id),
{
    let mut n: i64 = 0;
    let mut i: usize = 0;
    while i < ids.len()
        invariant
            i <= ids@.len(),
            ids@.len() < i64::MAX,
            0 <= n <= i,
            (n > 0) == (exists|j: int| 0 <= j < i && ids@[j] == id),
        decreases ids@.len() - i,
    {
        if ids[i] == id {
            n += 1;
        }
        i += 1;
    }
    proof {
        if n > 0 {
            let j = choose|j: int| 0 <= j < i && ids@[j] == id;
            assert(ids@.contains(ids@[j]));
        }
    }
    n
}

/// Imports the rows with ids `ids` into a table holding the ids
/// `existing`: each row is added when [`should_import`] says so, given how
/// many rows with its id the table holds.  Gives how many were added.
pub fn import_rows(existing: &mut Vec<i64>, ids: &Vec<i64>) -> (added: u64)
    requires
        old(existing)@.len() + ids@.len() < i64::MAX,
    ensures
        final(existing)@.to_set() == import_ids(old(existing)@.to_set(), ids@).0,
        added == import_ids(old(existing)@.to_set(), ids@).1,
{
    let ghost start = existing@.to_set();
    let ghost n0 = existing@.len();
    let mut added: u64 = 0;
    let mut i: usize = 0;
    while i < ids.len()
        invariant
            i <= ids@.len(),
            n0 + ids@.len() < i64::MAX,
            existing@.len() <= n0 + i,
            added <= i,
            existing@.to_set() == import_ids(start, ids@.take(i as int)).0,
            added == import_ids(start, ids@.take(i as int)).1,
        decreases ids@.len() - i,
    {
        let id = ids[i];
        let c = count_id(existing, id);
        proof {
            assert(ids@.take(i + 1).drop_last() =~= ids@.take(i as int));
            assert(ids@.take(i + 1).last() == id);
            assert(existing@.to_set().contains(id) == existing@.contains(id));
        }
        if should_import(c) {
            let ghost before = existing@;
            existing.push(id);
            proof {
                assert(existing@.to_set() =~= before.to_set().insert(id)) by {
                    assert forall|x: i64| existing@.to_set().contains(x) == before.to_set().insert(id).contains(x) by {
                        if x == id {
                            assert(existing@[before.len() as int] == id);
                        }
                        if existing@.contains(x) && x != id {
                            let j = choose|j: int| 0 <= j < existing@.len() && existing@[j] == x;
                            assert(before[j] == x);
                        }
                        if before.contains(x) {
                            let j = choose|j: int| 0 <= j < before.len() && before[j] == x;
                            assert(existing@[j] == x);
                        }
                    }
                }
            }
            added = added + 1;
        }
        i += 1;
    }
    assert(ids@.take(i as int) =~= ids@);
    added
}

/// After an import, the table holds what it held and every imported id.
proof fn lemma_import_holds_all(db: Set<i64>, ids: Seq<i64>)
    ensures
        forall|x: i64| db.contains(x) ==> import_ids(db, ids).0.contains(x),
        forall|i: int| 0 <= i < ids.len() ==> import_ids(db, ids).0.contains(#[trigger] ids[i]),
    decreases ids.len(),
{
    if ids.len() > 0 {
        lemma_import_holds_all(db, ids.drop_last());
        assert forall|i: int| 0 <= i < ids.len() implies import_ids(db, ids).0.contains(#[trigger] ids[i]) by {
            if i < ids.len() - 1 {
                assert(ids.drop_last()[i] == ids[i]);
            }
        }
    }
}

/// Importing into a table that already holds every id adds nothing.
proof fn lemma_import_nothing_new(db: Set<i64>, ids: Seq<i64>)
    requires
        forall|i: int| 0 <= i < ids.len() ==> db.contains(#[trigger] ids[i]),
    ensures
        import_ids(db, ids) == (db, 0nat),
    decreases ids.len(),
{
    if ids.len() > 0 {
        assert forall|i: int| 0 <= i < ids.len() - 1 implies db.contains(#[trigger] ids.drop_last()[i]) by {
            assert(ids.drop_last()[i] == ids[i]);
        }
        lemma_import_nothing_new(db, ids.drop_last());
        assert(db.contains(ids[ids.len() - 1]));
    }
}

/// Importing the same rows a second time adds nothing and leaves the table
/// as the first import left it.
pub proof fn lemma_import_twice_adds_nothing(db: Set<i64>, ids: Seq<i64>)
    ensures
        import_ids(import_ids(db, ids).0, ids) == (import_ids(db, ids).0, 0nat),
{
    lemma_import_holds_all(db, ids);
    lemma_import_nothing_new(import_ids(db, ids).0, ids);
}

} // verus!
