//! Records of the film knowledge base as the front end sees them.
use vstd::prelude::*;

verus! {

#[derive(Debug)]
pub struct PersonSummary {
    pub id: i64,
    pub name: String,
    pub primary_role: String,
    pub film_count: i64,
}

#[derive(Debug)]
pub struct PersonDetail {
    pub id: i64,
    pub tmdb_id: Option<i64>,
    pub name: String,
    pub primary_role: String,
    pub born_date: Option<String>,
    pub nationality: Option<String>,
    pub biography: Option<String>,
    pub wiki_content: String,
    pub films: Vec<PersonFilmEntry>,
    pub relations: Vec<PersonRelation>,
}

#[derive(Debug)]
pub struct PersonFilmEntry {
    pub film_id: i64,
    pub title: String,
    pub year: Option<i64>,
    pub role: String,
    pub poster_cache_path: Option<String>,
}

#[derive(Debug)]
pub struct PersonRelation {
    pub target_id: i64,
    pub target_name: String,
    pub direction: String,
    pub relation_type: String,
}

#[derive(Debug)]
pub struct FilmPersonEntry {
    pub person_id: i64,
    pub name: String,
    pub role: String,
}

#[derive(Debug)]
pub struct GenreSummary {
    pub id: i64,
    pub name: String,
    pub film_count: i64,
    pub child_count: i64,
}

/// A genre with its sub-genres.
#[derive(Debug)]
pub struct GenreTreeNode {
    pub id: i64,
    pub name: String,
    pub period: Option<String>,
    pub film_count: i64,
    pub children: Vec<GenreTreeNode>,
}

#[derive(Debug)]
pub struct TmdbPersonInput {
    pub tmdb_id: Option<i64>,
    pub name: String,
    pub role: String,
    pub primary_role: String,
}

#[derive(Debug)]
pub struct GraphLink {
    pub source: String,
    pub target: String,
    pub role: String,
}

} // verus!
