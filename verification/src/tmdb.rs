//! Reading TMDB movie details: year, genres, director, leading actors and
//! the crew that matters.
use vstd::prelude::*;

use crate::sort::{is_stable_sort, key_of, lemma_stable_sort_views, lex_le, stable_sort, view_seq, SortKey};
use crate::text::{chars_eq_str, chars_of, join, push_str, string_of};

verus! {

/// A genre of a film.
#[derive(Debug, Clone)]
pub struct Genre {
    pub name: String,
}

/// A crew member and the job done.
#[derive(Debug, Clone)]
pub struct CrewMember {
    pub job: String,
    pub name: String,
}

/// An actor and the billing position.
#[derive(Debug, Clone)]
pub struct CastMember {
    pub name: String,
    pub order: u32,
}

/// Who worked on a film.
#[derive(Debug)]
pub struct Credits {
    pub crew: Vec<CrewMember>,
    pub cast: Vec<CastMember>,
}

/// The details of a film as TMDB gives them.
#[derive(Debug)]
pub struct MovieDetails {
    pub title: String,
    /// `YYYY-MM-DD`.
    pub release_date: String,
    pub overview: String,
    /// The vote average written with one decimal.
    pub rating: String,
    pub genres: Vec<Genre>,
    pub credits: Credits,
}

/// What is shown of a film.
#[derive(Debug)]
pub struct TmdbMovie {
    pub title: String,
    /// The year of release (first four characters of the release date).
    pub year: String,
    /// Genre names separated by `, `.
    pub genres: String,
    /// The first crew member whose job is `Director`, or `N/A`.
    pub director: String,
    /// The first three actors by billing order, separated by `, `.
    pub actors: String,
    pub rating: String,
    pub overview: String,
}

/// A genre with its TMDB id.
#[derive(Debug)]
pub struct TmdbGenre {
    pub id: u64,
    pub name: String,
}

/// The first four characters of a release date (all of it when shorter).
pub open spec fn year_of(release_date: Seq<char>) -> Seq<char> {
    if release_date.len() <= 4 {
        release_date
    } else {
        release_date.take(4)
    }
}

/// The year part of a `YYYY-MM-DD` release date.
pub fn extract_year(release_date: &str) -> (r: String)
    ensures
        r@ == year_of(release_date@),
{
    let c = chars_of(release_date);
    let mut out: Vec<char> = Vec::new();
    let mut i: usize = 0;
    while i < c.len() && i < 4
        invariant
            i <= c@.len(),
            i <= 4,
            out@ == c@.take(i as int),
        decreases 4 - i,
    {
        out.push(c[i]);
        assert(c@.take(i + 1) =~= c@.take(i as int).push(c@[i as int]));
        i += 1;
    }
    assert(out@ =~= year_of(release_date@));
    string_of(&out)
}

impl View for CastMember {
    type V = (Seq<char>, u32);

    open spec fn view(&self) -> (Seq<char>, u32) {
        (self.name@, self.order)
    }
}

impl SortKey for CastMember {
    open spec fn sort_key(&self) -> Seq<int> {
        seq![self.order as int]
    }

    fn key_le(&self, other: &Self) -> (r: bool) {
        proof {
            reveal_with_fuel(lex_le, 2);
        }
        self.order <= other.order
    }
}

/// Actors are ordered by billing position.
pub open spec fn billing_key() -> spec_fn((Seq<char>, u32)) -> Seq<int> {
    |c: (Seq<char>, u32)| seq![c.1 as int]
}

/// The names of the first `n` actors of `cs`.
pub open spec fn first_names(cs: Seq<(Seq<char>, u32)>, n: int) -> Seq<Seq<char>> {
    (if cs.len() <= n {
        cs
    } else {
        cs.take(n)
    }).map_values(|c: (Seq<char>, u32)| c.0)
}

/// The first crew member of `crew[i..]` whose job is `Director`.
pub open spec fn first_director(crew: Seq<CrewMember>, i: int) -> Option<Seq<char>>
    decreases crew.len() - i,
{
    if i < 0 || i >= crew.len() {
        None
    } else if crew[i].job@ == "Director"@ {
        Some(crew[i].name@)
    } else {
        first_director(crew, i + 1)
    }
}

/// The genre names of a film.
pub open spec fn genre_names(gs: Seq<Genre>) -> Seq<Seq<char>> {
    gs.map_values(|g: Genre| g.name@)
}

/// The director of a film, if the crew names one.
pub fn find_director(crew: &Vec<CrewMember>) -> (r: Option<String>)
    ensures
        match first_director(crew@, 0) {
            Some(n) => r matches Some(s) && s@ == n,
            None => r is None,
        },
{
    let mut i: usize = 0;
    while i < crew.len()
        invariant
            i <= crew@.len(),
            first_director(crew@, 0) == first_director(crew@, i as int),
        decreases crew@.len() - i,
    {
        let j = chars_of(crew[i].job.as_str());
        if chars_eq_str(&j, "Director") {
            return Some(crew[i].name.clone());
        }
        i += 1;
    }
    None
}

/// Copies the actors.
pub fn copy_cast(cast: &Vec<CastMember>) -> (r: Vec<CastMember>)
    ensures
        view_seq(r@) == view_seq(cast@),
{
    let mut out: Vec<CastMember> = Vec::new();
    let mut i: usize = 0;
    while i < cast.len()
        invariant
            i <= cast@.len(),
            view_seq(out@) == view_seq(cast@).take(i as int),
        decreases cast@.len() - i,
    {
        let c = CastMember { name: cast[i].name.clone(), order: cast[i].order };
        let ghost before = out@;
        out.push(c);
        assert(view_seq(out@) =~= view_seq(before).push(c@));
        assert(view_seq(cast@).take(i + 1) =~= view_seq(cast@).take(i as int).push(cast@[i as int]@));
        i += 1;
    }
    assert(view_seq(cast@).take(cast@.len() as int) =~= view_seq(cast@));
    out
}

/// The names of the first `n` actors, joined with `, `.
fn join_first_names(cs: &Vec<CastMember>, n: usize) -> (r: Vec<char>)
    ensures
        r@ == join(first_names(view_seq(cs@), n as int), ", "@),
{
    let sep = chars_of(", ");
    let mut names: Vec<Vec<char>> = Vec::new();
    let mut i: usize = 0;
    let ghost vs = view_seq(cs@);
    let ghost lim = if vs.len() <= n { vs } else { vs.take(n as int) };
    while i < cs.len() && i < n
        invariant
            vs == view_seq(cs@),
            lim == (if vs.len() <= n { vs } else { vs.take(n as int) }),
            i <= cs@.len(),
            i <= n,
            crate::text::views(names@) == lim.take(i as int).map_values(|c: (Seq<char>, u32)| c.0),
        decreases n - i,
    {
        let nm = chars_of(cs[i].name.as_str());
        let ghost before = crate::text::views(names@);
        names.push(nm);
        assert(crate::text::views(names@) =~= before.push(nm@));
        assert(lim.take(i + 1).map_values(|c: (Seq<char>, u32)| c.0) =~= lim.take(i as int).map_values(
            |c: (Seq<char>, u32)| c.0,
        ).push(nm@));
        i += 1;
    }
    assert(lim.take(i as int) =~= lim);
    assert(crate::text::views(names@) =~= first_names(vs, n as int));
    crate::text::join_chars(&names, &sep)
}

/// Turns TMDB details into what is shown: the year, the genres joined with
/// `, `, the first director (or `N/A`), and the first three actors by
/// billing order (actors with the same position keep TMDB's order).
pub fn parse_movie_details(details: &MovieDetails) -> (r: TmdbMovie)
    ensures
        r.title@ == details.title@,
        r.year@ == year_of(details.release_date@),
        r.genres@ == join(genre_names(details.genres@), ", "@),
        r.director@ == match first_director(details.credits.crew@, 0) {
            Some(n) => n,
            None => "N/A"@,
        },
        exists|sorted: Seq<(Seq<char>, u32)>|
            is_stable_sort(view_seq(details.credits.cast@), sorted, billing_key()) && r.actors@
                == join(first_names(sorted, 3), ", "@),
        r.rating@ == details.rating@,
        r.overview@ == details.overview@,
{
    let year = extract_year(details.release_date.as_str());
    let mut gnames: Vec<Vec<char>> = Vec::new();
    let mut i: usize = 0;
    while i < details.genres.len()
        invariant
            i <= details.genres@.len(),
            crate::text::views(gnames@) == genre_names(details.genres@).take(i as int),
        decreases details.genres@.len() - i,
    {
        let g = chars_of(details.genres[i].name.as_str());
        let ghost before = crate::text::views(gnames@);
        gnames.push(g);
        assert(crate::text::views(gnames@) =~= before.push(g@));
        assert(genre_names(details.genres@).take(i + 1) =~= genre_names(details.genres@).take(
            i as int,
        ).push(details.genres@[i as int].name@));
        i += 1;
    }
    assert(genre_names(details.genres@).take(details.genres@.len() as int) =~= genre_names(
        details.genres@,
    ));
    let sep = chars_of(", ");
    let genres = crate::text::join_chars(&gnames, &sep);
    let director = match find_director(&details.credits.crew) {
        Some(d) => d,
        None => "N/A".to_string(),
    };
    let cast = copy_cast(&details.credits.cast);
    let sorted = stable_sort(cast);
    proof {
        assert forall|t: CastMember| #[trigger] key_of::<CastMember>()(t) == billing_key()(t@) by {}
        lemma_stable_sort_views(cast@, sorted@, key_of::<CastMember>(), billing_key());
    }
    let actors = join_first_names(&sorted, 3);
    TmdbMovie {
        title: details.title.clone(),
        year,
        genres: string_of(&genres),
        director,
        actors: string_of(&actors),
        rating: details.rating.clone(),
        overview: details.overview.clone(),
    }
}


impl TmdbMovie {
    /// The text shown for the film, ending with the command that searches
    /// its torrents.
    pub open spec fn info(&self) -> Seq<char> {
        "Title:    "@ + self.title@ + " ("@ + self.year@ + ")\nGenre:    "@ + self.genres@ + "\nDirector: "@
            + self.director@ + "\nActors:   "@ + self.actors@ + "\nRating:   "@ + self.rating@
            + "/10 (TMDB)\nPlot:     "@ + self.overview@ + "\n\n💡 搜索种子: blowup search \""@ + self.title@
            + "\" --year "@ + self.year@ + "\n"@
    }

    /// The text shown for the film.
    pub fn info_text(&self) -> (r: String)
        ensures
            r@ == self.info(),
    {
        let mut v: Vec<char> = Vec::new();
        push_str(&mut v, "Title:    ");
        push_str(&mut v, self.title.as_str());
        push_str(&mut v, " (");
        push_str(&mut v, self.year.as_str());
        push_str(&mut v, ")\nGenre:    ");
        push_str(&mut v, self.genres.as_str());
        push_str(&mut v, "\nDirector: ");
        push_str(&mut v, self.director.as_str());
        push_str(&mut v, "\nActors:   ");
        push_str(&mut v, self.actors.as_str());
        push_str(&mut v, "\nRating:   ");
        push_str(&mut v, self.rating.as_str());
        push_str(&mut v, "/10 (TMDB)\nPlot:     ");
        push_str(&mut v, self.overview.as_str());
        push_str(&mut v, "\n\n💡 搜索种子: blowup search \"");
        push_str(&mut v, self.title.as_str());
        push_str(&mut v, "\" --year ");
        push_str(&mut v, self.year.as_str());
        push_str(&mut v, "\n");
        string_of(&v)
    }
}
} // verus!
