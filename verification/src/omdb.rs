//! OMDb lookups: the query sent, reading the answer's status, and the
//! text shown for a film.
use vstd::prelude::*;

use crate::text::{chars_eq_str, chars_of, decimal, push_decimal, push_str, string_of};

verus! {

/// A film as OMDb describes it.
#[derive(Debug)]
pub struct OmdbMovie {
    pub title: String,
    pub year: String,
    pub rated: String,
    pub imdb_rating: String,
    pub genre: String,
    pub director: String,
    pub actors: String,
    pub plot: String,
    pub poster: String,
    pub response: String,
}

/// Why an OMDb lookup gave no film.
#[derive(Debug)]
pub enum OmdbError {
    ApiKeyMissing,
    NotFound(String),
    HttpFailed(reqwest::Error),
}

/// The text of an optional string slice.
pub open spec fn opt_str(o: Option<&str>) -> Option<Seq<char>> {
    match o {
        Some(s) => Some(s@),
        None => None,
    }
}

/// An answer whose `Response` is `False` names no film: the lookup fails
/// with the answer's `Error` (`unknown` when it has none).
pub fn check_omdb_response(response: Option<&str>, error: Option<&str>) -> (r: Result<(), OmdbError>)
    ensures
        opt_str(response) == Some("False"@) ==> (r matches Err(OmdbError::NotFound(m)) && m@ == match error {
            Some(e) => e@,
            None => "unknown"@,
        }),
        opt_str(response) != Some("False"@) ==> r is Ok,
{
    let failed = match response {
        Some(r) => chars_eq_str(&chars_of(r), "False"),
        None => false,
    };
    if failed {
        let msg = match error {
            Some(e) => string_of(&chars_of(e)),
            None => string_of(&chars_of("unknown")),
        };
        Err(OmdbError::NotFound(msg))
    } else {
        Ok(())
    }
}

/// The texts of (name, value) query parameters.
pub open spec fn param_texts(p: Seq<(String, String)>) -> Seq<(Seq<char>, Seq<char>)> {
    p.map_values(|x: (String, String)| (x.0@, x.1@))
}

/// The query of an OMDb lookup: the key, the title, a short plot, and the
/// year when given; without a key the lookup cannot be made.
pub fn omdb_params(api_key: &str, title: &str, year: Option<u32>) -> (r: Result<Vec<(String, String)>, OmdbError>)
    ensures
        api_key@.len() == 0 ==> r matches Err(OmdbError::ApiKeyMissing),
        api_key@.len() > 0 ==> (r matches Ok(p) && param_texts(p@) == {
            let base = seq![("apikey"@, api_key@), ("t"@, title@), ("plot"@, "short"@)];
            match year {
                Some(y) => base.push(("y"@, decimal(y as nat))),
                None => base,
            }
        }),
{
    if api_key.unicode_len() == 0 {
        return Err(OmdbError::ApiKeyMissing);
    }
    let mut p: Vec<(String, String)> = Vec::new();
    p.push((string_of(&chars_of("apikey")), string_of(&chars_of(api_key))));
    p.push((string_of(&chars_of("t")), string_of(&chars_of(title))));
    p.push((string_of(&chars_of("plot")), string_of(&chars_of("short"))));
    match year {
        Some(y) => {
            let mut v: Vec<char> = Vec::new();
            push_decimal(&mut v, y as u64);
            p.push((string_of(&chars_of("y")), string_of(&v)));
        },
        None => {},
    }
    Ok(p)
}

/// The first four characters of `s` (all of it when shorter).
pub open spec fn first_four(s: Seq<char>) -> Seq<char> {
    if s.len() <= 4 {
        s
    } else {
        s.take(4)
    }
}

impl OmdbMovie {
    /// The text shown for the film, ending with the command that searches
    /// its torrents (the year cut to its first four characters).
    pub open spec fn info(&self) -> Seq<char> {
        "Title:    "@ + self.title@ + " ("@ + self.year@ + ")\nGenre:    "@ + self.genre@ + "\nDirector: "@
            + self.director@ + "\nActors:   "@ + self.actors@ + "\nRating:   "@ + self.imdb_rating@
            + "/10 (IMDb)\nRated:    "@ + self.rated@ + "\nPlot:     "@ + self.plot@
            + "\n\n💡 搜索种子: blowup search \""@ + self.title@ + "\" --year "@ + first_four(self.year@)
            + "\n"@
    }

    /// The text shown for the film.
    pub fn info_text(&self) -> (r: String)
        ensures
            r@ == self.info(),
    {
        let y = chars_of(self.year.as_str());
        let mut year4: Vec<char> = Vec::new();
        let mut i: usize = 0;
        while i < y.len() && i < 4
            invariant
                i <= y@.len(),
                i <= 4,
                year4@ == y@.take(i as int),
            decreases 4 - i,
        {
            year4.push(y[i]);
            assert(y@.take(i + 1) =~= y@.take(i as int).push(y@[i as int]));
            i += 1;
        }
        assert(year4@ =~= first_four(self.year@));
        let mut v: Vec<char> = Vec::new();
        push_str(&mut v, "Title:    ");
        push_str(&mut v, self.title.as_str());
        push_str(&mut v, " (");
        push_str(&mut v, self.year.as_str());
        push_str(&mut v, ")\nGenre:    ");
        push_str(&mut v, self.genre.as_str());
        push_str(&mut v, "\nDirector: ");
        push_str(&mut v, self.director.as_str());
        push_str(&mut v, "\nActors:   ");
        push_str(&mut v, self.actors.as_str());
        push_str(&mut v, "\nRating:   ");
        push_str(&mut v, self.imdb_rating.as_str());
        push_str(&mut v, "/10 (IMDb)\nRated:    ");
        push_str(&mut v, self.rated.as_str());
        push_str(&mut v, "\nPlot:     ");
        push_str(&mut v, self.plot.as_str());
        push_str(&mut v, "\n\n💡 搜索种子: blowup search \"");
        push_str(&mut v, self.title.as_str());
        push_str(&mut v, "\" --year ");
        crate::text::push_all(&mut v, &year4);
        push_str(&mut v, "\n");
        string_of(&v)
    }
}

} // verus!
