//! The SQL that lists the films of the knowledge base: filters, order and
//! pages.
use vstd::prelude::*;

use crate::text::{chars_eq_str, chars_of, push_str, string_of};

verus! {

/// A value bound to a `?` of a query, in order.
#[derive(Debug)]
pub enum SqlValue {
    Text(String),
    Int(i64),
    /// A real number, as the bits of an `f64`.
    RealBits(u64),
}

/// The values of a bound value.
pub enum SqlValueView {
    Text(Seq<char>),
    Int(i64),
    RealBits(u64),
}

/// The values of bound values.
pub open spec fn value_views(v: Seq<SqlValue>) -> Seq<SqlValueView> {
    v.map_values(
        |x: SqlValue|
            match x {
                SqlValue::Text(s) => SqlValueView::Text(s@),
                SqlValue::Int(i) => SqlValueView::Int(i),
                SqlValue::RealBits(b) => SqlValueView::RealBits(b),
            },
    )
}

/// Which page of films is read.
#[derive(Debug, Clone, Copy, PartialEq, Eq)]
pub struct Paging {
    pub page: i64,
    pub page_size: i64,
    pub offset: i64,
}

/// The page asked for (1 by default, at least 1).
pub open spec fn page_of(page: Option<i64>) -> int {
    let p = match page {
        Some(p) => p as int,
        None => 1,
    };
    if p < 1 { 1 } else { p }
}

/// The page size asked for (20 by default), kept within 1 to 100.
pub open spec fn page_size_of(page_size: Option<i64>) -> int {
    let s = match page_size {
        Some(s) => s as int,
        None => 20,
    };
    if s < 1 {
        1
    } else if s > 100 {
        100
    } else {
        s
    }
}

/// The page, the page size, and how many films come before the page.
/// The offset must fit in 64 bits.
pub fn paging(page: Option<i64>, page_size: Option<i64>) -> (r: Paging)
    requires
        (page_of(page) - 1) * page_size_of(page_size) <= i64::MAX,
    ensures
        r.page == page_of(page),
        r.page_size == page_size_of(page_size),
        r.offset == (page_of(page) - 1) * page_size_of(page_size),
{
    let p: i64 = match page {
        Some(p) => p,
        None => 1,
    };
    let pg: i64 = if p < 1 { 1 } else { p };
    let s: i64 = match page_size {
        Some(s) => s,
        None => 20,
    };
    let ps: i64 = if s < 1 {
        1
    } else if s > 100 {
        100
    } else {
        s
    };
    let offset = (pg - 1) * ps;
    Paging { page: pg, page_size: ps, offset }
}

/// The text of an optional string slice.
pub open spec fn opt_text(o: Option<&str>) -> Option<Seq<char>> {
    match o {
        Some(s) => Some(s@),
        None => None,
    }
}

/// The conditions added to `WHERE 1=1` for the filters, with the values
/// they bind: a non-empty query matched in the title or the original
/// title, the genre, the year range, the least rating, and whether a file
/// of the film is in the library.
pub open spec fn filter_sql(
    query: Option<Seq<char>>,
    genre_id: Option<i64>,
    year_from: Option<i64>,
    year_to: Option<i64>,
    min_rating_bits: Option<u64>,
    has_file: Option<bool>,
) -> (Seq<char>, Seq<SqlValueView>) {
    let (s1, v1) = match query {
        Some(q) => if q.len() > 0 {
            (
                " AND (f.title LIKE '%' || ? || '%' OR f.original_title LIKE '%' || ? || '%')"@,
                seq![SqlValueView::Text(q), SqlValueView::Text(q)],
            )
        } else {
            (seq![], seq![])
        },
        None => (seq![], seq![]),
    };
    let (s2, v2) = match genre_id {
        Some(g) => (s1 + " AND fg.genre_id = ?"@, v1.push(SqlValueView::Int(g))),
        None => (s1, v1),
    };
    let (s3, v3) = match year_from {
        Some(y) => (s2 + " AND f.year >= ?"@, v2.push(SqlValueView::Int(y))),
        None => (s2, v2),
    };
    let (s4, v4) = match year_to {
        Some(y) => (s3 + " AND f.year <= ?"@, v3.push(SqlValueView::Int(y))),
        None => (s3, v3),
    };
    let (s5, v5) = match min_rating_bits {
        Some(b) => (s4 + " AND f.tmdb_rating >= ?"@, v4.push(SqlValueView::RealBits(b))),
        None => (s4, v4),
    };
    match has_file {
        Some(true) => (s5 + " AND EXISTS(SELECT 1 FROM library_items li WHERE li.film_id = f.id)"@, v5),
        Some(false) => (s5 + " AND NOT EXISTS(SELECT 1 FROM library_items li WHERE li.film_id = f.id)"@, v5),
        None => (s5, v5),
    }
}

/// The filter conditions of the film list, with their bound values.
pub fn film_filters(
    query: Option<&str>,
    genre_id: Option<i64>,
    year_from: Option<i64>,
    year_to: Option<i64>,
    min_rating_bits: Option<u64>,
    has_file: Option<bool>,
) -> (r: (String, Vec<SqlValue>))
    ensures
        (r.0@, value_views(r.1@)) == filter_sql(opt_text(query), genre_id, year_from, year_to, min_rating_bits, has_file),
{
    let mut sql: Vec<char> = Vec::new();
    let mut vals: Vec<SqlValue> = Vec::new();
    match query {
        Some(q) => {
            if q.unicode_len() > 0 {
                push_str(&mut sql, " AND (f.title LIKE '%' || ? || '%' OR f.original_title LIKE '%' || ? || '%')");
                vals.push(SqlValue::Text(string_of(&chars_of(q))));
                vals.push(SqlValue::Text(string_of(&chars_of(q))));
                assert(value_views(vals@) =~= seq![SqlValueView::Text(q@), SqlValueView::Text(q@)]);
                assert(sql@ =~= " AND (f.title LIKE '%' || ? || '%' OR f.original_title LIKE '%' || ? || '%')"@);
            } else {
                assert(value_views(vals@) =~= Seq::<SqlValueView>::empty());
                assert(sql@ =~= Seq::<char>::empty());
            }
        },
        None => {
            assert(value_views(vals@) =~= Seq::<SqlValueView>::empty());
        },
    }
    match genre_id {
        Some(g) => {
            push_str(&mut sql, " AND fg.genre_id = ?");
            let ghost before = value_views(vals@);
            vals.push(SqlValue::Int(g));
            assert(value_views(vals@) =~= before.push(SqlValueView::Int(g)));
        },
        None => {},
    }
    match year_from {
        Some(y) => {
            push_str(&mut sql, " AND f.year >= ?");
            let ghost before = value_views(vals@);
            vals.push(SqlValue::Int(y));
            assert(value_views(vals@) =~= before.push(SqlValueView::Int(y)));
        },
        None => {},
    }
    match year_to {
        Some(y) => {
            push_str(&mut sql, " AND f.year <= ?");
            let ghost before = value_views(vals@);
            vals.push(SqlValue::Int(y));
            assert(value_views(vals@) =~= before.push(SqlValueView::Int(y)));
        },
        None => {},
    }
    match min_rating_bits {
        Some(b) => {
            push_str(&mut sql, " AND f.tmdb_rating >= ?");
            let ghost before = value_views(vals@);
            vals.push(SqlValue::RealBits(b));
            assert(value_views(vals@) =~= before.push(SqlValueView::RealBits(b)));
        },
        None => {},
    }
    match has_file {
        Some(true) => push_str(&mut sql, " AND EXISTS(SELECT 1 FROM library_items li WHERE li.film_id = f.id)"),
        Some(false) => push_str(
            &mut sql,
            " AND NOT EXISTS(SELECT 1 FROM library_items li WHERE li.film_id = f.id)",
        ),
        None => {},
    }
    (string_of(&sql), vals)
}

/// The column the films are ordered by: title, year or rating when asked
/// for, else when they were added.
pub open spec fn order_column(sort_by: Option<Seq<char>>) -> Seq<char> {
    match sort_by {
        Some(s) => if s == "title"@ {
            "f.title"@
        } else if s == "year"@ {
            "f.year"@
        } else if s == "rating"@ {
            "f.tmdb_rating"@
        } else {
            "f.created_at"@
        },
        None => "f.created_at"@,
    }
}

/// The order of the film list: ` ORDER BY {column} {DESC|ASC} NULLS LAST`,
/// descending unless ascending is asked for.
pub open spec fn order_sql(sort_by: Option<Seq<char>>, sort_desc: Option<bool>) -> Seq<char> {
    " ORDER BY "@ + order_column(sort_by) + (if sort_desc == Some(false) { " ASC"@ } else { " DESC"@ })
        + " NULLS LAST"@
}

/// The order of the film list.
pub fn film_order(sort_by: Option<&str>, sort_desc: Option<bool>) -> (r: String)
    ensures
        r@ == order_sql(opt_text(sort_by), sort_desc),
{
    let col = match sort_by {
        Some(s) => {
            let c = chars_of(s);
            if chars_eq_str(&c, "title") {
                "f.title"
            } else if chars_eq_str(&c, "year") {
                "f.year"
            } else if chars_eq_str(&c, "rating") {
                "f.tmdb_rating"
            } else {
                "f.created_at"
            }
        },
        None => "f.created_at",
    };
    let desc = match sort_desc {
        Some(d) => d,
        None => true,
    };
    let mut v: Vec<char> = Vec::new();
    push_str(&mut v, " ORDER BY ");
    push_str(&mut v, col);
    if desc {
        push_str(&mut v, " DESC");
    } else {
        push_str(&mut v, " ASC");
    }
    push_str(&mut v, " NULLS LAST");
    string_of(&v)
}

/// The start of the query that counts the films, joined with their genres
/// when a genre is asked for.
pub open spec fn count_head(by_genre: bool) -> Seq<char> {
    "SELECT COUNT(DISTINCT f.id) FROM films f"@ + (if by_genre {
        " INNER JOIN film_genres fg ON f.id = fg.film_id"@
    } else {
        seq![]
    }) + " WHERE 1=1"@
}

/// The start of the query that counts the films.
pub fn film_count_head(by_genre: bool) -> (r: String)
    ensures
        r@ == count_head(by_genre),
{
    let mut v: Vec<char> = Vec::new();
    push_str(&mut v, "SELECT COUNT(DISTINCT f.id) FROM films f");
    if by_genre {
        push_str(&mut v, " INNER JOIN film_genres fg ON f.id = fg.film_id");
    } else {
        assert(v@ =~= v@ + Seq::<char>::empty());
    }
    push_str(&mut v, " WHERE 1=1");
    string_of(&v)
}

/// The start of the query that lists the films, joined with their genres
/// when a genre is asked for.
pub open spec fn list_head(by_genre: bool) -> Seq<char> {
    "SELECT DISTINCT f.id, f.title, f.original_title, f.year, f.tmdb_rating, f.poster_cache_path, CASE WHEN EXISTS(SELECT 1 FROM library_items li WHERE li.film_id = f.id) THEN 1 ELSE 0 END AS has_file FROM films f"@
        + (if by_genre {
        " INNER JOIN film_genres fg ON f.id = fg.film_id"@
    } else {
        seq![]
    }) + " WHERE 1=1"@
}

/// The start of the query that lists the films.
pub fn film_list_head(by_genre: bool) -> (r: String)
    ensures
        r@ == list_head(by_genre),
{
    let mut v: Vec<char> = Vec::new();
    push_str(
        &mut v,
        "SELECT DISTINCT f.id, f.title, f.original_title, f.year, f.tmdb_rating, f.poster_cache_path, CASE WHEN EXISTS(SELECT 1 FROM library_items li WHERE li.film_id = f.id) THEN 1 ELSE 0 END AS has_file FROM films f",
    );
    if by_genre {
        push_str(&mut v, " INNER JOIN film_genres fg ON f.id = fg.film_id");
    } else {
        assert(v@ =~= v@ + Seq::<char>::empty());
    }
    push_str(&mut v, " WHERE 1=1");
    string_of(&v)
}

/// How a person of a film taken from TMDB is looked up before it is
/// added: by TMDB id when it has one, else by name.
pub open spec fn person_lookup_sql(tmdb_id: Option<i64>) -> Seq<char> {
    match tmdb_id {
        Some(_) => "SELECT id FROM people WHERE tmdb_id = ?"@,
        None => "SELECT id FROM people WHERE name = ?"@,
    }
}

/// The query that finds a person of a film taken from TMDB, and the value
/// it binds.
pub fn person_lookup(tmdb_id: Option<i64>, name: &str) -> (r: (String, SqlValue))
    ensures
        r.0@ == person_lookup_sql(tmdb_id),
        match tmdb_id {
            Some(id) => r.1 matches SqlValue::Int(i) && i == id,
            None => r.1 matches SqlValue::Text(t) && t@ == name@,
        },
{
    match tmdb_id {
        Some(id) => (string_of(&chars_of("SELECT id FROM people WHERE tmdb_id = ?")), SqlValue::Int(id)),
        None => (string_of(&chars_of("SELECT id FROM people WHERE name = ?")), SqlValue::Text(string_of(&chars_of(name)))),
    }
}

/// How a person not found is added: with the TMDB id when it has one.
pub open spec fn person_insert_sql(tmdb_id: Option<i64>) -> Seq<char> {
    match tmdb_id {
        Some(_) => "INSERT INTO people (name, primary_role, tmdb_id) VALUES (?, ?, ?)"@,
        None => "INSERT INTO people (name, primary_role) VALUES (?, ?)"@,
    }
}

/// The statement that adds a person not found, and the values it binds:
/// the name, the primary role, and the TMDB id when there is one.
pub fn person_insert(tmdb_id: Option<i64>, name: &str, primary_role: &str) -> (r: (String, Vec<SqlValue>))
    ensures
        r.0@ == person_insert_sql(tmdb_id),
        value_views(r.1@) == {
            let base = seq![SqlValueView::Text(name@), SqlValueView::Text(primary_role@)];
            match tmdb_id {
                Some(id) => base.push(SqlValueView::Int(id)),
                None => base,
            }
        },
{
    let mut vals: Vec<SqlValue> = Vec::new();
    vals.push(SqlValue::Text(string_of(&chars_of(name))));
    vals.push(SqlValue::Text(string_of(&chars_of(primary_role))));
    match tmdb_id {
        Some(id) => {
            vals.push(SqlValue::Int(id));
            assert(value_views(vals@) =~= seq![
                SqlValueView::Text(name@),
                SqlValueView::Text(primary_role@),
                SqlValueView::Int(id),
            ]);
            (string_of(&chars_of("INSERT INTO people (name, primary_role, tmdb_id) VALUES (?, ?, ?)")), vals)
        },
        None => {
            assert(value_views(vals@) =~= seq![SqlValueView::Text(name@), SqlValueView::Text(primary_role@)]);
            (string_of(&chars_of("INSERT INTO people (name, primary_role) VALUES (?, ?)")), vals)
        },
    }
}

} // verus!
