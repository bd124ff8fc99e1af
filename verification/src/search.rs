//! Torrent search results: flattening the YTS listing and ranking it.
use vstd::prelude::*;

use crate::error::SearchError;
use crate::sort::{is_stable_sort, key_of, lemma_stable_sort_views, lex_le, stable_sort, view_seq, SortKey};
use crate::text::chars_eq_str;

verus! {

/// One downloadable release of a film.
#[derive(Debug, Clone)]
pub struct MovieResult {
    pub title: String,
    pub year: u32,
    pub quality: String,
    pub magnet: Option<String>,
    pub torrent_url: Option<String>,
    pub seeds: u32,
}

/// The values of a [`MovieResult`].
pub struct MovieResultView {
    pub title: Seq<char>,
    pub year: u32,
    pub quality: Seq<char>,
    pub magnet: Option<Seq<char>>,
    pub torrent_url: Option<Seq<char>>,
    pub seeds: u32,
}

/// The text of an optional string.
pub open spec fn opt_view(o: Option<String>) -> Option<Seq<char>> {
    match o {
        Some(s) => Some(s@),
        None => None,
    }
}

/// A copy of an optional string.
pub fn clone_opt(o: &Option<String>) -> (r: Option<String>)
    ensures
        opt_view(r) == opt_view(*o),
{
    match o {
        Some(s) => Some(s.clone()),
        None => None,
    }
}

impl View for MovieResult {
    type V = MovieResultView;

    open spec fn view(&self) -> MovieResultView {
        MovieResultView {
            title: self.title@,
            year: self.year,
            quality: self.quality@,
            magnet: opt_view(self.magnet),
            torrent_url: opt_view(self.torrent_url),
            seeds: self.seeds,
        }
    }
}

/// The YTS listing response.
#[derive(Debug)]
pub struct YtsResponse {
    pub data: YtsData,
}

#[derive(Debug)]
pub struct YtsData {
    pub movies: Vec<YtsMovie>,
}

#[derive(Debug)]
pub struct YtsMovie {
    pub title: String,
    pub year: u32,
    pub torrents: Vec<YtsTorrent>,
}

#[derive(Debug)]
pub struct YtsTorrent {
    pub quality: String,
    pub url: String,
    pub seeds: u32,
    pub magnet_url: Option<String>,
}

/// How good a quality label is: `2160p` 4, `1080p` 3, `720p` 2, anything
/// else 1.
pub open spec fn rank_of(q: Seq<char>) -> int {
    if q == "2160p"@ {
        4
    } else if q == "1080p"@ {
        3
    } else if q == "720p"@ {
        2
    } else {
        1
    }
}

/// Ranks a quality label (higher is better).
pub fn quality_rank(q: &str) -> (r: u8)
    ensures
        r == rank_of(q@),
{
    let c = crate::text::chars_of(q);
    if chars_eq_str(&c, "2160p") {
        4
    } else if chars_eq_str(&c, "1080p") {
        3
    } else if chars_eq_str(&c, "720p") {
        2
    } else {
        1
    }
}

impl SortKey for MovieResult {
    open spec fn sort_key(&self) -> Seq<int> {
        seq![-rank_of(self.quality@), -(self.seeds as int)]
    }

    fn key_le(&self, other: &Self) -> (r: bool) {
        proof {
            reveal_with_fuel(lex_le, 3);
        }
        let ra = quality_rank(self.quality.as_str());
        let rb = quality_rank(other.quality.as_str());
        if ra != rb {
            ra > rb
        } else {
            self.seeds >= other.seeds
        }
    }
}

/// Best quality first, then most seeds.
pub open spec fn release_key() -> spec_fn(MovieResultView) -> Seq<int> {
    |v: MovieResultView| seq![-rank_of(v.quality), -(v.seeds as int)]
}

/// The releases of one film, one per torrent, in order.
pub open spec fn releases_of(m: YtsMovie) -> Seq<MovieResultView> {
    m.torrents@.map_values(
        |t: YtsTorrent|
            MovieResultView {
                title: m.title@,
                year: m.year,
                quality: t.quality@,
                magnet: opt_view(t.magnet_url),
                torrent_url: Some(t.url@),
                seeds: t.seeds,
            },
    )
}

/// The releases of all films, film by film.
pub open spec fn all_releases(ms: Seq<YtsMovie>) -> Seq<MovieResultView>
    decreases ms.len(),
{
    if ms.len() == 0 {
        seq![]
    } else {
        all_releases(ms.drop_last()) + releases_of(ms.last())
    }
}

/// Every release of every film, best quality first and, within a quality,
/// most seeds first; releases that tie keep the listing's order.  It never
/// fails.
pub fn parse_yts_response(resp: YtsResponse) -> (r: Result<Vec<MovieResult>, SearchError>)
    ensures
        r matches Ok(v) && is_stable_sort(all_releases(resp.data.movies@), view_seq(v@), release_key()),
{
    let movies = &resp.data.movies;
    let mut flat: Vec<MovieResult> = Vec::new();
    let mut i: usize = 0;
    while i < movies.len()
        invariant
            i <= movies@.len(),
            view_seq(flat@) == all_releases(movies@.take(i as int)),
        decreases movies@.len() - i,
    {
        let m = &movies[i];
        assert(movies@.take(i + 1).drop_last() =~= movies@.take(i as int));
        let ghost start = view_seq(flat@);
        let mut k: usize = 0;
        while k < m.torrents.len()
            invariant
                k <= m.torrents@.len(),
                view_seq(flat@) == start + releases_of(*m).take(k as int),
            decreases m.torrents@.len() - k,
        {
            let t = &m.torrents[k];
            let item = MovieResult {
                title: m.title.clone(),
                year: m.year,
                quality: t.quality.clone(),
                magnet: clone_opt(&t.magnet_url),
                torrent_url: Some(t.url.clone()),
                seeds: t.seeds,
            };
            let ghost before = flat@;
            flat.push(item);
            assert(view_seq(flat@) =~= view_seq(before).push(item@));
            assert(releases_of(*m).take(k + 1) =~= releases_of(*m).take(k as int).push(item@));
            k += 1;
        }
        assert(releases_of(*m).take(m.torrents@.len() as int) =~= releases_of(*m));
        assert(movies@.take(i + 1).last() == *m);
        i += 1;
    }
    assert(movies@.take(movies@.len() as int) =~= movies@);
    let sorted = stable_sort(flat);
    proof {
        assert forall|t: MovieResult| #[trigger] key_of::<MovieResult>()(t) == release_key()(t@) by {}
        lemma_stable_sort_views(flat@, sorted@, key_of::<MovieResult>(), release_key());
    }
    Ok(sorted)
}


/// The texts of (name, value) query parameters.
pub open spec fn query_texts(p: Seq<(String, String)>) -> Seq<(Seq<char>, Seq<char>)> {
    p.map_values(|x: (String, String)| (x.0@, x.1@))
}

/// The query of a YTS search: the text, most seeds first, and the year
/// when given.
pub fn yts_params(query: &str, year: Option<u32>) -> (r: Vec<(String, String)>)
    ensures
        query_texts(r@) == {
            let base = seq![("query_term"@, query@), ("sort_by"@, "seeds"@), ("order_by"@, "desc"@)];
            match year {
                Some(y) => base.push(("year"@, crate::text::decimal(y as nat))),
                None => base,
            }
        },
{
    let mut p: Vec<(String, String)> = Vec::new();
    p.push((crate::text::string_of(&crate::text::chars_of("query_term")), crate::text::string_of(&crate::text::chars_of(query))));
    p.push((crate::text::string_of(&crate::text::chars_of("sort_by")), crate::text::string_of(&crate::text::chars_of("seeds"))));
    p.push((crate::text::string_of(&crate::text::chars_of("order_by")), crate::text::string_of(&crate::text::chars_of("desc"))));
    match year {
        Some(y) => {
            let mut v: Vec<char> = Vec::new();
            crate::text::push_decimal(&mut v, y as u64);
            p.push((crate::text::string_of(&crate::text::chars_of("year")), crate::text::string_of(&v)));
        },
        None => {},
    }
    p
}

/// A torrent search gives its releases when it found any; a failed search,
/// or one that found nothing, reports no results for the query.
pub fn search_outcome(query: &str, found: Result<Vec<MovieResult>, SearchError>) -> (r: Result<Vec<MovieResult>, SearchError>)
    ensures
        match found {
            Ok(v) => if v@.len() > 0 {
                r matches Ok(w) && w@ == v@
            } else {
                r matches Err(SearchError::NoResults(q)) && q@ == query@
            },
            Err(_) => r matches Err(SearchError::NoResults(q)) && q@ == query@,
        },
{
    match found {
        Ok(v) => {
            if v.len() > 0 {
                Ok(v)
            } else {
                Err(SearchError::NoResults(crate::text::string_of(&crate::text::chars_of(query))))
            }
        },
        Err(_) => Err(SearchError::NoResults(crate::text::string_of(&crate::text::chars_of(query)))),
    }
}
} // verus!
