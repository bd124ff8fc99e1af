//! Searching TMDB: the query parameters sent, and the list of films shown.
use vstd::prelude::*;
use vstd::utf8::{decode_utf8, encode_utf8, encode_utf8_decode_utf8, encode_utf8_valid_utf8, is_char_boundary};

use crate::text::{chars_of, decimal, join, push_decimal, push_str, string_of};

verus! {

/// The text of the first four bytes of `d` (`str::get(..4)`), when they
/// end on a character boundary.
pub open spec fn first_four_bytes(d: Seq<char>) -> Option<Seq<char>> {
    if is_char_boundary(encode_utf8(d), 4) {
        Some(decode_utf8(encode_utf8(d).subrange(0, 4)))
    } else {
        None
    }
}

/// `str::get(..4)`.
pub fn first_four(d: &str) -> (r: Option<&str>)
    ensures
        match r {
            Some(p) => first_four_bytes(d@) == Some(p@),
            None => first_four_bytes(d@) is None,
        },
{
    proof {
        encode_utf8_valid_utf8(d@);
    }
    if d.is_char_boundary(4) {
        let (a, _b) = d.split_at(4);
        proof {
            encode_utf8_decode_utf8(a@);
        }
        Some(a)
    } else {
        None
    }
}

/// A film of a search's result list as TMDB lists it.
#[derive(Debug)]
pub struct ListItem {
    pub id: u64,
    pub title: String,
    pub original_title: String,
    pub release_date: Option<String>,
    pub overview: String,
    /// The vote average, as the bits of an `f64`.
    pub vote_average_bits: u64,
    pub poster_path: Option<String>,
    pub genre_ids: Vec<u64>,
}

/// A film shown in the search list.
#[derive(Debug)]
pub struct MovieListItem {
    pub id: u64,
    pub title: String,
    pub original_title: String,
    /// The year of release, empty when unknown.
    pub year: String,
    pub overview: String,
    /// The vote average, as the bits of an `f64`.
    pub vote_average_bits: u64,
    pub poster_path: Option<String>,
    pub genre_ids: Vec<u64>,
    pub director: Option<String>,
    pub cast: Vec<String>,
}

/// The year shown for a release date: its first four bytes, empty when
/// there is no date or they split a character.
pub open spec fn list_year(date: Option<Seq<char>>) -> Seq<char> {
    match date {
        Some(d) => match first_four_bytes(d) {
            Some(y) => y,
            None => seq![],
        },
        None => seq![],
    }
}

/// The film shown for a listed film: the same values, the year cut from
/// the release date, no director and no cast.
pub fn to_list_item(item: ListItem) -> (r: MovieListItem)
    ensures
        r.id == item.id,
        r.title == item.title,
        r.original_title == item.original_title,
        r.year@ == list_year(
            match item.release_date {
                Some(d) => Some(d@),
                None => None,
            },
        ),
        r.overview == item.overview,
        r.vote_average_bits == item.vote_average_bits,
        r.poster_path == item.poster_path,
        r.genre_ids == item.genre_ids,
        r.director is None,
        r.cast@.len() == 0,
{
    let year = match &item.release_date {
        Some(d) => match first_four(d.as_str()) {
            Some(y) => string_of(&chars_of(y)),
            None => String::new(),
        },
        None => String::new(),
    };
    MovieListItem {
        id: item.id,
        title: item.title,
        original_title: item.original_title,
        year,
        overview: item.overview,
        vote_average_bits: item.vote_average_bits,
        poster_path: item.poster_path,
        genre_ids: item.genre_ids,
        director: None,
        cast: Vec::new(),
    }
}

/// The films of `s` not yet seen, each id once, in order.
pub open spec fn unseen(s: Seq<MovieListItem>, seen: Set<u64>) -> Seq<MovieListItem>
    decreases s.len(),
{
    if s.len() == 0 {
        seq![]
    } else if seen.contains(s[0].id) {
        unseen(s.drop_first(), seen)
    } else {
        seq![s[0]] + unseen(s.drop_first(), seen.insert(s[0].id))
    }
}

/// The ids of films.
pub open spec fn ids(s: Seq<MovieListItem>) -> Set<u64> {
    s.map_values(|m: MovieListItem| m.id).to_set()
}

/// The search list: the films found by title, then those found through
/// the person, less the ones already listed.
pub fn merge_search_results(by_title: Vec<MovieListItem>, by_person: Vec<MovieListItem>) -> (r: Vec<MovieListItem>)
    ensures
        r@ == by_title@ + unseen(by_person@, ids(by_title@)),
{
    let mut seen: Vec<u64> = Vec::new();
    let mut i: usize = 0;
    while i < by_title.len()
        invariant
            i <= by_title@.len(),
            seen@.to_set() == by_title@.take(i as int).map_values(|m: MovieListItem| m.id).to_set(),
        decreases by_title@.len() - i,
    {
        let ghost before = seen@;
        seen.push(by_title[i].id);
        assert(by_title@.take(i + 1).map_values(|m: MovieListItem| m.id) =~= by_title@.take(i as int).map_values(
            |m: MovieListItem| m.id,
        ).push(by_title@[i as int].id));
        proof {
            before.lemma_push_to_set_commute(by_title@[i as int].id);
            by_title@.take(i as int).map_values(|m: MovieListItem| m.id).lemma_push_to_set_commute(
                by_title@[i as int].id,
            );
        }
        i += 1;
    }
    assert(by_title@.take(i as int) =~= by_title@);
    let ghost orig = by_person@;
    let ghost n: int = orig.len() as int;
    let mut out = by_title;
    let mut rest = by_person;
    let ghost start = out@;
    while rest.len() > 0
        invariant
            n == orig.len(),
            rest@.len() <= n,
            rest@ == orig.subrange(n - rest@.len(), n),
            out@ + unseen(rest@, seen@.to_set()) == start + unseen(orig, ids(start)),
        decreases rest@.len(),
    {
        let ghost k: int = n - rest@.len();
        let ghost r0 = rest@;
        let m = rest.remove(0);
        assert(rest@ =~= r0.drop_first());
        let fresh = !holds_id(&seen, m.id);
        if fresh {
            let ghost s0 = seen@;
            seen.push(m.id);
            proof {
                s0.lemma_push_to_set_commute(m.id);
            }
            let ghost o0 = out@;
            out.push(m);
            assert(out@ =~= o0 + seq![r0[0]]);
            assert(o0 + unseen(r0, s0.to_set()) =~= o0 + (seq![r0[0]] + unseen(r0.drop_first(), s0.to_set().insert(r0[0].id))));
        }
    }
    assert(unseen(rest@, seen@.to_set()) =~= Seq::<MovieListItem>::empty());
    assert(out@ + Seq::<MovieListItem>::empty() =~= out@);
    out
}

/// Whether `v` holds `x`.
fn holds_id(v: &Vec<u64>, x: u64) -> (r: bool)
    ensures
        r == v@.to_set().contains(x),
{
    let mut i: usize = 0;
    while i < v.len()
        invariant
            i <= v@.len(),
            forall|j: int| 0 <= j < i ==> v@[j] != x,
        decreases v@.len() - i,
    {
        if v[i] == x {
            assert(v@.contains(x));
            return true;
        }
        i += 1;
    }
    assert(!v@.contains(x));
    false
}

/// The filters of a TMDB discovery.
#[derive(Debug)]
pub struct SearchFilters {
    pub year_from: Option<u32>,
    pub year_to: Option<u32>,
    pub genre_ids: Vec<u64>,
    /// The least vote average, written as text.
    pub min_rating: Option<String>,
    /// `popularity.desc`, `vote_average.desc` or `release_date.desc`.
    pub sort_by: Option<String>,
    pub page: Option<u32>,
}

/// The texts of (name, value) query parameters.
pub open spec fn param_views(p: Seq<(String, String)>) -> Seq<(Seq<char>, Seq<char>)> {
    p.map_values(|x: (String, String)| (x.0@, x.1@))
}

/// The genre ids written in decimal.
pub open spec fn id_numerals(ids: Seq<u64>) -> Seq<Seq<char>> {
    ids.map_values(|i: u64| decimal(i as nat))
}

/// The query of a TMDB discovery: the key, English, the page (1 by
/// default), the order (`vote_average.desc` by default) and at least 50
/// votes; then, when given, the first and last release dates of the year
/// range, the genres joined with `,` and the least vote average.
pub open spec fn discover_params(api_key: Seq<char>, f: SearchFilters) -> Seq<(Seq<char>, Seq<char>)> {
    let base = seq![
        ("api_key"@, api_key),
        ("language"@, "en-US"@),
        ("page"@, decimal(match f.page { Some(p) => p as nat, None => 1nat })),
        ("sort_by"@, match f.sort_by { Some(s) => s@, None => "vote_average.desc"@ }),
        ("vote_count.gte"@, "50"@),
    ];
    let a = match f.year_from {
        Some(y) => base.push(("primary_release_date.gte"@, decimal(y as nat) + "-01-01"@)),
        None => base,
    };
    let b = match f.year_to {
        Some(y) => a.push(("primary_release_date.lte"@, decimal(y as nat) + "-12-31"@)),
        None => a,
    };
    let c = if f.genre_ids@.len() > 0 {
        b.push(("with_genres"@, join(id_numerals(f.genre_ids@), ","@)))
    } else {
        b
    };
    match f.min_rating {
        Some(r) => c.push(("vote_average.gte"@, r@)),
        None => c,
    }
}

/// A query parameter.
fn param(name: &str, value: Vec<char>) -> (r: (String, String))
    ensures
        r.0@ == name@,
        r.1@ == value@,
{
    (string_of(&chars_of(name)), string_of(&value))
}

/// The query of a TMDB discovery.
pub fn build_discover_params(api_key: &str, f: &SearchFilters) -> (r: Vec<(String, String)>)
    ensures
        param_views(r@) == discover_params(api_key@, *f),
{
    let mut p: Vec<(String, String)> = Vec::new();
    p.push(param("api_key", chars_of(api_key)));
    p.push(param("language", chars_of("en-US")));
    let page: u32 = match f.page {
        Some(x) => x,
        None => 1,
    };
    let mut pv: Vec<char> = Vec::new();
    push_decimal(&mut pv, page as u64);
    p.push(param("page", pv));
    let sort = match &f.sort_by {
        Some(s) => chars_of(s.as_str()),
        None => chars_of("vote_average.desc"),
    };
    p.push(param("sort_by", sort));
    p.push(param("vote_count.gte", chars_of("50")));
    let ghost base = param_views(p@);
    assert(base =~= seq![
        ("api_key"@, api_key@),
        ("language"@, "en-US"@),
        ("page"@, decimal(match f.page { Some(p) => p as nat, None => 1nat })),
        ("sort_by"@, match f.sort_by { Some(s) => s@, None => "vote_average.desc"@ }),
        ("vote_count.gte"@, "50"@),
    ]);
    match f.year_from {
        Some(y) => {
            let mut v: Vec<char> = Vec::new();
            push_decimal(&mut v, y as u64);
            push_str(&mut v, "-01-01");
            let ghost before = param_views(p@);
            p.push(param("primary_release_date.gte", v));
            assert(param_views(p@) =~= before.push(("primary_release_date.gte"@, decimal(y as nat) + "-01-01"@)));
        },
        None => {},
    }
    match f.year_to {
        Some(y) => {
            let mut v: Vec<char> = Vec::new();
            push_decimal(&mut v, y as u64);
            push_str(&mut v, "-12-31");
            let ghost before = param_views(p@);
            p.push(param("primary_release_date.lte", v));
            assert(param_views(p@) =~= before.push(("primary_release_date.lte"@, decimal(y as nat) + "-12-31"@)));
        },
        None => {},
    }
    if f.genre_ids.len() > 0 {
        let mut nums: Vec<Vec<char>> = Vec::new();
        let mut i: usize = 0;
        while i < f.genre_ids.len()
            invariant
                i <= f.genre_ids@.len(),
                crate::text::views(nums@) == id_numerals(f.genre_ids@).take(i as int),
            decreases f.genre_ids@.len() - i,
        {
            let mut v: Vec<char> = Vec::new();
            push_decimal(&mut v, f.genre_ids[i]);
            let ghost before = crate::text::views(nums@);
            nums.push(v);
            assert(crate::text::views(nums@) =~= before.push(decimal(f.genre_ids@[i as int] as nat)));
            assert(id_numerals(f.genre_ids@).take(i + 1) =~= id_numerals(f.genre_ids@).take(i as int).push(
                decimal(f.genre_ids@[i as int] as nat),
            ));
            i += 1;
        }
        assert(id_numerals(f.genre_ids@).take(i as int) =~= id_numerals(f.genre_ids@));
        let sep = chars_of(",");
        let joined = crate::text::join_chars(&nums, &sep);
        let ghost before = param_views(p@);
        p.push(param("with_genres", joined));
        assert(param_views(p@) =~= before.push(("with_genres"@, join(id_numerals(f.genre_ids@), ","@))));
    }
    match &f.min_rating {
        Some(r) => {
            let ghost before = param_views(p@);
            p.push(param("vote_average.gte", chars_of(r.as_str())));
            assert(param_views(p@) =~= before.push(("vote_average.gte"@, r@)));
        },
        None => {},
    }
    p
}

/// The query of a TMDB search by title.
pub fn title_search_params(api_key: &str, query: &str, page: Option<u32>) -> (r: Vec<(String, String)>)
    ensures
        param_views(r@) == seq![
            ("api_key"@, api_key@),
            ("query"@, query@),
            ("page"@, decimal(match page { Some(p) => p as nat, None => 1nat })),
        ],
{
    let pg: u32 = match page {
        Some(x) => x,
        None => 1,
    };
    let mut pv: Vec<char> = Vec::new();
    push_decimal(&mut pv, pg as u64);
    let mut p: Vec<(String, String)> = Vec::new();
    p.push(param("api_key", chars_of(api_key)));
    p.push(param("query", chars_of(query)));
    p.push(param("page", pv));
    assert(param_views(p@) =~= seq![
        ("api_key"@, api_key@),
        ("query"@, query@),
        ("page"@, decimal(match page { Some(p) => p as nat, None => 1nat })),
    ]);
    p
}


/// The query of a TMDB title lookup: the key, the title, English, and the
/// year when given; without a key the lookup cannot be made.
pub fn lookup_params(api_key: &str, title: &str, year: Option<u32>) -> (r: Result<Vec<(String, String)>, crate::error::TmdbError>)
    ensures
        api_key@.len() == 0 ==> r matches Err(crate::error::TmdbError::ApiKeyMissing),
        api_key@.len() > 0 ==> (r matches Ok(p) && param_views(p@) == {
            let base = seq![("api_key"@, api_key@), ("query"@, title@), ("language"@, "en-US"@)];
            match year {
                Some(y) => base.push(("year"@, decimal(y as nat))),
                None => base,
            }
        }),
{
    if api_key.unicode_len() == 0 {
        return Err(crate::error::TmdbError::ApiKeyMissing);
    }
    let mut p: Vec<(String, String)> = Vec::new();
    p.push(param("api_key", chars_of(api_key)));
    p.push(param("query", chars_of(title)));
    p.push(param("language", chars_of("en-US")));
    match year {
        Some(y) => {
            let mut v: Vec<char> = Vec::new();
            push_decimal(&mut v, y as u64);
            p.push(param("year", v));
        },
        None => {},
    }
    Ok(p)
}

/// The film looked up: the first search result, or not found under the
/// title.
pub fn first_movie_id(ids: &Vec<u64>, title: &str) -> (r: Result<u64, crate::error::TmdbError>)
    ensures
        ids@.len() > 0 ==> r == Ok::<u64, crate::error::TmdbError>(ids@[0]),
        ids@.len() == 0 ==> (r matches Err(crate::error::TmdbError::NotFound(t)) && t@ == title@),
{
    if ids.len() > 0 {
        Ok(ids[0])
    } else {
        Err(crate::error::TmdbError::NotFound(string_of(&chars_of(title))))
    }
}
/// A TMDB film search needs the key: without one it fails with
/// `TMDB API key not configured`.
pub fn require_tmdb_key(api_key: &str) -> (r: Result<(), String>)
    ensures
        api_key@.len() == 0 ==> (r matches Err(m) && m@ == "TMDB API key not configured"@),
        api_key@.len() > 0 ==> r is Ok,
{
    if api_key.unicode_len() == 0 {
        return Err(string_of(&chars_of("TMDB API key not configured")));
    }
    Ok(())
}

/// The release-date bounds of a TMDB discovery come from the year range:
/// a `year_to` of `y` gives the upper bound `primary_release_date.lte` =
/// `{y}-12-31`, a `year_from` of `y` the lower bound
/// `primary_release_date.gte` = `{y}-01-01`, and no bound comes from
/// anything else.
pub proof fn lemma_discover_year_bounds(api_key: &str, f: &SearchFilters, r: Seq<(String, String)>)
    requires
        param_views(r) == discover_params(api_key@, *f),
    ensures
        f.year_to matches Some(y) ==> exists|k: int|
            0 <= k < r.len() && (#[trigger] r[k]).0@ == "primary_release_date.lte"@ && r[k].1@ == decimal(y as nat)
                + "-12-31"@,
        f.year_from matches Some(y) ==> exists|k: int|
            0 <= k < r.len() && (#[trigger] r[k]).0@ == "primary_release_date.gte"@ && r[k].1@ == decimal(y as nat)
                + "-01-01"@,
        forall|k: int|
            0 <= k < r.len() && (#[trigger] r[k]).0@ == "primary_release_date.lte"@ ==> (f.year_to matches Some(y)
                && r[k].1@ == decimal(y as nat) + "-12-31"@),
        forall|k: int|
            0 <= k < r.len() && (#[trigger] r[k]).0@ == "primary_release_date.gte"@ ==> (f.year_from matches Some(y)
                && r[k].1@ == decimal(y as nat) + "-01-01"@),
{
    reveal_strlit("api_key");
    reveal_strlit("language");
    reveal_strlit("page");
    reveal_strlit("sort_by");
    reveal_strlit("vote_count.gte");
    reveal_strlit("primary_release_date.gte");
    reveal_strlit("primary_release_date.lte");
    reveal_strlit("with_genres");
    reveal_strlit("vote_average.gte");
    assert("primary_release_date.gte"@.len() == 24 && "primary_release_date.lte"@.len() == 24);
    assert("primary_release_date.gte"@[21] == 'g' && "primary_release_date.lte"@[21] == 'l');
    assert("with_genres"@.len() == 11 && "vote_average.gte"@.len() == 16 && "vote_count.gte"@.len() == 14);
    assert("api_key"@.len() == 7 && "language"@.len() == 8 && "page"@.len() == 4 && "sort_by"@.len() == 7);
    let p = param_views(r);
    assert(p.len() == r.len());
    assert forall|k: int| 0 <= k < r.len() implies #[trigger] p[k] == (r[k].0@, r[k].1@) by {}
    let base = seq![
        ("api_key"@, api_key@),
        ("language"@, "en-US"@),
        ("page"@, decimal(match f.page { Some(p) => p as nat, None => 1nat })),
        ("sort_by"@, match f.sort_by { Some(s) => s@, None => "vote_average.desc"@ }),
        ("vote_count.gte"@, "50"@),
    ];
    let a = match f.year_from {
        Some(yf) => base.push(("primary_release_date.gte"@, decimal(yf as nat) + "-01-01"@)),
        None => base,
    };
    let b = match f.year_to {
        Some(yt) => a.push(("primary_release_date.lte"@, decimal(yt as nat) + "-12-31"@)),
        None => a,
    };
    let c = if f.genre_ids@.len() > 0 {
        b.push(("with_genres"@, join(id_numerals(f.genre_ids@), ","@)))
    } else {
        b
    };
    let e = match f.min_rating {
        Some(x) => c.push(("vote_average.gte"@, x@)),
        None => c,
    };
    assert(e == discover_params(api_key@, *f));
    assert forall|k: int| 0 <= k < e.len() implies {
        &&& (e[k].0 == "primary_release_date.lte"@ ==> (f.year_to matches Some(y) && e[k].1 == decimal(y as nat) + "-12-31"@))
        &&& (e[k].0 == "primary_release_date.gte"@ ==> (f.year_from matches Some(y) && e[k].1 == decimal(y as nat) + "-01-01"@))
    } by {
        if k < b.len() {
            assert(e[k] == c[k] && c[k] == b[k]);
            if k < a.len() {
                assert(b[k] == a[k]);
                if k < base.len() {
                    assert(a[k] == base[k]);
                    assert(k == 0 || k == 1 || k == 2 || k == 3 || k == 4);
                }
            }
        } else if k < c.len() {
            assert(e[k] == c[k]);
        }
    }
    if let Some(y) = f.year_to {
        let k = a.len() as int;
        assert(e[k] == b[k]);
        assert(p[k] == (r[k].0@, r[k].1@));
    }
    if let Some(y) = f.year_from {
        assert(e[5] == a[5]);
        assert(p[5] == (r[5].0@, r[5].1@));
    }
    assert forall|k: int| 0 <= k < r.len() && (#[trigger] r[k]).0@ == "primary_release_date.lte"@ implies (f.year_to matches Some(y)
        && r[k].1@ == decimal(y as nat) + "-12-31"@) by {
        assert(p[k] == (r[k].0@, r[k].1@));
    }
    assert forall|k: int| 0 <= k < r.len() && (#[trigger] r[k]).0@ == "primary_release_date.gte"@ implies (f.year_from matches Some(y)
        && r[k].1@ == decimal(y as nat) + "-01-01"@) by {
        assert(p[k] == (r[k].0@, r[k].1@));
    }
}

/// A TMDB discovery always sends the key, English, the page asked for (1
/// when none), the order asked for (`vote_average.desc` when none) and a
/// floor of 50 votes, in that order first; the genres, when any are asked
/// for, go as their ids joined with `,`, and the least rating as given.
pub proof fn lemma_discover_fixed_params(api_key: &str, f: &SearchFilters, r: Seq<(String, String)>)
    requires
        param_views(r) == discover_params(api_key@, *f),
    ensures
        r.len() >= 5,
        r[0].0@ == "api_key"@ && r[0].1@ == api_key@,
        r[1].0@ == "language"@ && r[1].1@ == "en-US"@,
        r[2].0@ == "page"@ && r[2].1@ == decimal(if f.page is Some { f.page->0 as nat } else { 1nat }),
        r[3].0@ == "sort_by"@ && r[3].1@ == (if f.sort_by is Some { f.sort_by->0@ } else { "vote_average.desc"@ }),
        r[4].0@ == "vote_count.gte"@ && r[4].1@ == "50"@,
        f.genre_ids@.len() > 0 ==> exists|k: int|
            0 <= k < r.len() && (#[trigger] r[k]).0@ == "with_genres"@ && r[k].1@ == join(
                f.genre_ids@.map_values(|g: u64| decimal(g as nat)),
                ","@,
            ),
        f.min_rating matches Some(m) ==> r[r.len() - 1].0@ == "vote_average.gte"@ && r[r.len() - 1].1@ == m@,
{
    let p = param_views(r);
    assert forall|k: int| 0 <= k < r.len() implies #[trigger] p[k] == (r[k].0@, r[k].1@) by {}
    let base = seq![
        ("api_key"@, api_key@),
        ("language"@, "en-US"@),
        ("page"@, decimal(if f.page is Some { f.page->0 as nat } else { 1nat })),
        ("sort_by"@, if f.sort_by is Some { f.sort_by->0@ } else { "vote_average.desc"@ }),
        ("vote_count.gte"@, "50"@),
    ];
    let a = if f.year_from is Some {
        base.push(("primary_release_date.gte"@, decimal(f.year_from->0 as nat) + "-01-01"@))
    } else {
        base
    };
    let b = if f.year_to is Some {
        a.push(("primary_release_date.lte"@, decimal(f.year_to->0 as nat) + "-12-31"@))
    } else {
        a
    };
    let g = join(f.genre_ids@.map_values(|x: u64| decimal(x as nat)), ","@);
    assert(id_numerals(f.genre_ids@) =~= f.genre_ids@.map_values(|x: u64| decimal(x as nat)));
    let c = if f.genre_ids@.len() > 0 { b.push(("with_genres"@, g)) } else { b };
    let e = if f.min_rating is Some { c.push(("vote_average.gte"@, f.min_rating->0@)) } else { c };
    assert(e =~= discover_params(api_key@, *f));
    assert(forall|k: int| 0 <= k < 5 ==> e[k] == base[k]);
    assert(p[0] == base[0] && p[1] == base[1] && p[2] == base[2] && p[3] == base[3] && p[4] == base[4]);
    if f.genre_ids@.len() > 0 {
        let k = b.len() as int;
        assert(e[k] == ("with_genres"@, g));
        assert(p[k] == (r[k].0@, r[k].1@));
    }
    if f.min_rating is Some {
        assert(p[r.len() - 1] == (r[r.len() - 1].0@, r[r.len() - 1].1@));
    }
}

} // verus!
