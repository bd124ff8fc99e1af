//! Film credits from TMDB: the crew that matters, the leading cast, and the
//! credits kept in the library index.
use vstd::prelude::*;

use crate::sort::{is_stable_sort, key_of, lemma_stable_sort_views, stable_sort, view_seq};
use crate::text::{chars_eq, chars_eq_str, chars_of, push_str, parse_i64, parse_u32, parsed_i64, parsed_u32, pieces, string_of};
use crate::library_index::{lookup, EntryMetadata, IndexEntry, LibraryIndex};
use crate::tracker::string_views;
use crate::tmdb::{billing_key, copy_cast, find_director, first_director, first_names, CastMember, CrewMember};

verus! {

/// A crew member of a film.
#[derive(Debug)]
pub struct TmdbCrewMember {
    pub id: i64,
    pub name: String,
    pub job: String,
    pub department: String,
}

/// A cast member of a film.
#[derive(Debug)]
pub struct TmdbCastMember {
    pub id: i64,
    pub name: String,
    pub character: String,
}

/// The director and leading actors of a film.
#[derive(Debug)]
pub struct MovieCreditsEnriched {
    pub id: u64,
    pub director: Option<String>,
    pub cast: Vec<String>,
}

/// The jobs shown among a film's crew.
pub open spec fn is_key_job(job: Seq<char>) -> bool {
    job == "Director"@ || job == "Director of Photography"@ || job == "Original Music Composer"@
        || job == "Editor"@ || job == "Screenplay"@ || job == "Writer"@
}

/// The test "the crew member has a key job".
pub open spec fn key_member() -> spec_fn(TmdbCrewMember) -> bool {
    |m: TmdbCrewMember| is_key_job(m.job@)
}

/// Whether `job` is shown among the crew.
fn key_job(job: &str) -> (r: bool)
    ensures
        r == is_key_job(job@),
{
    let j = chars_of(job);
    chars_eq_str(&j, "Director") || chars_eq_str(&j, "Director of Photography") || chars_eq_str(
        &j,
        "Original Music Composer",
    ) || chars_eq_str(&j, "Editor") || chars_eq_str(&j, "Screenplay") || chars_eq_str(&j, "Writer")
}

/// The crew members with a key job, in order.
pub fn key_crew(crew: Vec<TmdbCrewMember>) -> (r: Vec<TmdbCrewMember>)
    ensures
        r@ == crew@.filter(key_member()),
{
    let ghost orig = crew@;
    let ghost n: int = orig.len() as int;
    let mut rest = crew;
    let mut kept: Vec<TmdbCrewMember> = Vec::new();
    while rest.len() > 0
        invariant
            n == orig.len(),
            rest@.len() <= n,
            rest@ == orig.subrange(n - rest@.len(), n),
            kept@ == orig.subrange(0, n - rest@.len()).filter(key_member()),
        decreases rest@.len(),
    {
        let ghost k: int = n - rest@.len();
        let m = rest.remove(0);
        assert(m == orig[k]);
        assert(orig.subrange(0, k + 1) =~= orig.subrange(0, k).push(orig[k]));
        proof {
            orig.subrange(0, k).lemma_filter_push(orig[k], key_member());
        }
        assert(rest@ =~= orig.subrange(k + 1, n));
        if key_job(m.job.as_str()) {
            kept.push(m);
        }
    }
    assert(orig.subrange(0, n) =~= orig);
    kept
}

/// The first five cast members.
pub fn top_cast(cast: Vec<TmdbCastMember>) -> (r: Vec<TmdbCastMember>)
    ensures
        r@ == if cast@.len() <= 5 { cast@ } else { cast@.take(5) },
{
    let mut cast = cast;
    cast.truncate(5);
    cast
}

/// The release year of a film: the first four characters of its release
/// date read as a number (what reading the first four bytes gives, since
/// a number is written in ASCII).
pub open spec fn release_year(date: Option<Seq<char>>) -> Option<i64> {
    match date {
        Some(d) => if d.len() >= 4 {
            parsed_i64(d.take(4))
        } else {
            None
        },
        None => None,
    }
}

/// The release year of a film.
pub fn release_year_of(date: Option<&str>) -> (r: Option<i64>)
    ensures
        r == release_year(
            match date {
                Some(d) => Some(d@),
                None => None,
            },
        ),
{
    match date {
        Some(d) => {
            let c = chars_of(d);
            if c.len() < 4 {
                return None;
            }
            let mut head: Vec<char> = Vec::new();
            let mut i: usize = 0;
            while i < 4
                invariant
                    c@.len() >= 4,
                    i <= 4,
                    head@ == c@.take(i as int),
                decreases 4 - i,
            {
                head.push(c[i]);
                assert(c@.take(i + 1) =~= c@.take(i as int).push(c@[i as int]));
                i += 1;
            }
            let s = string_of(&head);
            parse_i64(s.as_str())
        },
        None => None,
    }
}

/// The year of a `YYYY-MM-DD` date: the text before the first `-` read as
/// a number.
pub open spec fn date_year(date: Seq<char>) -> Option<u32> {
    parsed_u32(pieces(date, '-')[0])
}

/// The year of a `YYYY-MM-DD` date.
pub fn date_year_of(date: &str) -> (r: Option<u32>)
    ensures
        r == date_year(date@),
{
    let c = chars_of(date);
    let parts = crate::text::split_char(&c, '-');
    proof {
        crate::text::lemma_pieces_nonempty(c@, '-');
    }
    let first = string_of(&parts[0]);
    parse_u32(first.as_str())
}

/// What is kept of a film's credits: its director and its first three
/// actors.
pub fn enriched_credits(id: u64, crew: &Vec<CrewMember>, cast: &Vec<CastMember>) -> (r: MovieCreditsEnriched)
    ensures
        r.id == id,
        match r.director {
            Some(d) => first_director(crew@, 0) == Some(d@),
            None => first_director(crew@, 0) is None,
        },
        r.cast@.map_values(|s: String| s@) == cast@.take(
            if cast@.len() <= 3 { cast@.len() as int } else { 3 },
        ).map_values(|c: CastMember| c.name@),
{
    let director = find_director(crew);
    let n: usize = if cast.len() <= 3 { cast.len() } else { 3 };
    let mut names: Vec<String> = Vec::new();
    let mut k: usize = 0;
    while k < n
        invariant
            k <= n,
            n <= cast@.len(),
            names@.map_values(|s: String| s@) == cast@.take(k as int).map_values(|c: CastMember| c.name@),
        decreases n - k,
    {
        let ghost before = names@;
        names.push(string_of(&chars_of(cast[k].name.as_str())));
        assert(names@.map_values(|s: String| s@) =~= before.map_values(|s: String| s@).push(cast@[k as int].name@));
        assert(cast@.take(k + 1).map_values(|c: CastMember| c.name@) =~= cast@.take(k as int).map_values(
            |c: CastMember| c.name@,
        ).push(cast@[k as int].name@));
        k += 1;
    }
    MovieCreditsEnriched { id, director, cast: names }
}


/// The label under which a crew job is kept in the index: director,
/// writer (for both writing jobs), cinematography, music, editing and
/// production; other jobs are not kept.
pub open spec fn role_label(job: Seq<char>) -> Option<Seq<char>> {
    if job == "Director"@ {
        Some("导演"@)
    } else if job == "Writer"@ || job == "Screenplay"@ {
        Some("编剧"@)
    } else if job == "Director of Photography"@ {
        Some("摄影"@)
    } else if job == "Original Music Composer"@ {
        Some("配乐"@)
    } else if job == "Editor"@ {
        Some("剪辑"@)
    } else if job == "Producer"@ {
        Some("制片"@)
    } else {
        None
    }
}

/// The label under which the leading cast is kept.
pub open spec fn cast_label() -> Seq<char> {
    "主演"@
}

/// The crew names by label: for every crew member with a kept job, in
/// order, the name is added under the job's label unless already there.
pub open spec fn crew_credits(crew: Seq<CrewMember>) -> Map<Seq<char>, Seq<Seq<char>>>
    decreases crew.len(),
{
    if crew.len() == 0 {
        Map::empty()
    } else {
        let m = crew_credits(crew.drop_last());
        let c = crew.last();
        match role_label(c.job@) {
            None => m,
            Some(l) => if m.contains_key(l) {
                if m[l].contains(c.name@) {
                    m
                } else {
                    m.insert(l, m[l].push(c.name@))
                }
            } else {
                m.insert(l, seq![c.name@])
            },
        }
    }
}

/// Credits kept as (label, names) pairs, read as a map (a later pair for
/// the same label wins).
pub open spec fn credits_map(v: Seq<(String, Vec<String>)>) -> Map<Seq<char>, Seq<Seq<char>>>
    decreases v.len(),
{
    if v.len() == 0 {
        Map::empty()
    } else {
        credits_map(v.drop_last()).insert(v.last().0@, string_views(v.last().1@))
    }
}

/// No two pairs share a label.
pub open spec fn distinct_labels(v: Seq<(String, Vec<String>)>) -> bool {
    forall|i: int, j: int| 0 <= i < j < v.len() ==> (#[trigger] v[i]).0@ != (#[trigger] v[j]).0@
}

proof fn lemma_credits_map_lookup(v: Seq<(String, Vec<String>)>, l: Seq<char>)
    requires
        distinct_labels(v),
    ensures
        (forall|j: int| 0 <= j < v.len() ==> (#[trigger] v[j]).0@ != l) ==> !credits_map(v).contains_key(l),
        forall|j: int| 0 <= j < v.len() && (#[trigger] v[j]).0@ == l ==> credits_map(v).contains_key(l)
            && credits_map(v)[l] == string_views(v[j].1@),
    decreases v.len(),
{
    if v.len() > 0 {
        let r = v.drop_last();
        assert(distinct_labels(r)) by {
            assert forall|i: int, j: int| 0 <= i < j < r.len() implies (#[trigger] r[i]).0@ != (#[trigger] r[j]).0@ by {
                assert(r[i] == v[i] && r[j] == v[j]);
            }
        }
        lemma_credits_map_lookup(r, l);
        assert forall|j: int| 0 <= j < v.len() && (#[trigger] v[j]).0@ == l implies credits_map(v).contains_key(l)
            && credits_map(v)[l] == string_views(v[j].1@) by {
            if j < v.len() - 1 {
                assert(r[j] == v[j]);
                assert(v[j].0@ != v[v.len() - 1].0@);
            }
        }
        if forall|j: int| 0 <= j < v.len() ==> (#[trigger] v[j]).0@ != l {
            assert forall|j: int| 0 <= j < r.len() implies (#[trigger] r[j]).0@ != l by {
                assert(r[j] == v[j]);
            }
            assert(v[v.len() - 1].0@ != l);
        }
    }
}

proof fn lemma_credits_map_update(v: Seq<(String, Vec<String>)>, i: int, pair: (String, Vec<String>))
    requires
        0 <= i < v.len(),
        v[i].0@ == pair.0@,
        forall|j: int| i < j < v.len() ==> (#[trigger] v[j]).0@ != pair.0@,
    ensures
        credits_map(v.update(i, pair)) == credits_map(v).insert(pair.0@, string_views(pair.1@)),
    decreases v.len(),
{
    let u = v.update(i, pair);
    if i == v.len() - 1 {
        assert(u.drop_last() =~= v.drop_last());
        assert(credits_map(u) =~= credits_map(v).insert(pair.0@, string_views(pair.1@)));
    } else {
        assert(u.drop_last() =~= v.drop_last().update(i, pair));
        lemma_credits_map_update(v.drop_last(), i, pair);
        assert(v.last().0@ != pair.0@);
        assert(credits_map(u) =~= credits_map(v).insert(pair.0@, string_views(pair.1@)));
    }
}

/// The label of a crew job.
fn role_label_of(job: &str) -> (r: Option<String>)
    ensures
        match r {
            Some(l) => role_label(job@) == Some(l@),
            None => role_label(job@) is None,
        },
{
    let j = chars_of(job);
    let label = if chars_eq_str(&j, "Director") {
        "导演"
    } else if chars_eq_str(&j, "Writer") || chars_eq_str(&j, "Screenplay") {
        "编剧"
    } else if chars_eq_str(&j, "Director of Photography") {
        "摄影"
    } else if chars_eq_str(&j, "Original Music Composer") {
        "配乐"
    } else if chars_eq_str(&j, "Editor") {
        "剪辑"
    } else if chars_eq_str(&j, "Producer") {
        "制片"
    } else {
        return None;
    };
    Some(string_of(&chars_of(label)))
}

/// Whether `names` holds `name`.
fn holds_name(names: &Vec<String>, name: &Vec<char>) -> (r: bool)
    ensures
        r == string_views(names@).contains(name@),
{
    let mut i: usize = 0;
    while i < names.len()
        invariant
            i <= names@.len(),
            forall|j: int| 0 <= j < i ==> names@[j]@ != name@,
        decreases names@.len() - i,
    {
        if chars_eq(&chars_of(names[i].as_str()), name) {
            assert(string_views(names@)[i as int] == name@);
            return true;
        }
        i += 1;
    }
    assert forall|j: int| 0 <= j < string_views(names@).len() implies string_views(names@)[j] != name@ by {
        assert(string_views(names@)[j] == names@[j]@);
    }
    false
}

/// Adds `name` under `label` unless it is there.
fn add_credit(credits: &mut Vec<(String, Vec<String>)>, label: String, name: &Vec<char>)
    requires
        distinct_labels(old(credits)@),
    ensures
        distinct_labels(final(credits)@),
        credits_map(final(credits)@) == {
            let m = credits_map(old(credits)@);
            if m.contains_key(label@) {
                if m[label@].contains(name@) {
                    m
                } else {
                    m.insert(label@, m[label@].push(name@))
                }
            } else {
                m.insert(label@, seq![name@])
            }
        },
{
    let ghost o = credits@;
    proof {
        lemma_credits_map_lookup(o, label@);
    }
    let mut i: usize = 0;
    while i < credits.len()
        invariant
            credits@ == o,
            o == old(credits)@,
            distinct_labels(o),
            i <= o.len(),
            forall|j: int| 0 <= j < i ==> (#[trigger] o[j]).0@ != label@,
        decreases o.len() - i,
    {
        if chars_eq(&chars_of(credits[i].0.as_str()), &chars_of(label.as_str())) {
            proof {
                lemma_credits_map_lookup(o, label@);
            }
            assert(credits_map(o)[label@] == string_views(o[i as int].1@));
            if holds_name(&credits[i].1, name) {
                return;
            }
            let (l, mut names) = credits.remove(i);
            let ghost old_names = names@;
            names.push(string_of(name));
            assert(string_views(names@) =~= string_views(old_names).push(name@));
            let ghost pair = (l, names);
            credits.insert(i, (l, names));
            assert(credits@ =~= o.update(i as int, pair));
            proof {
                assert forall|j: int| i < j < o.len() implies (#[trigger] o[j]).0@ != pair.0@ by {
                    assert(o[i as int].0@ != o[j].0@);
                }
                lemma_credits_map_update(o, i as int, pair);
                assert forall|a: int, b: int| 0 <= a < b < credits@.len() implies (#[trigger] credits@[a]).0@ != (#[trigger] credits@[b]).0@ by {
                    assert(credits@[a].0@ == o[a].0@ && credits@[b].0@ == o[b].0@);
                }
            }
            return;
        }
        i += 1;
    }
    proof {
        lemma_credits_map_lookup(o, label@);
    }
    let mut names: Vec<String> = Vec::new();
    names.push(string_of(name));
    assert(string_views(names@) =~= seq![name@]);
    credits.push((label, names));
    assert(credits@.drop_last() =~= o);
    assert forall|a: int, b: int| 0 <= a < b < credits@.len() implies (#[trigger] credits@[a]).0@ != (#[trigger] credits@[b]).0@ by {
        if b < o.len() {
            assert(credits@[a] == o[a] && credits@[b] == o[b]);
        } else {
            assert(credits@[a] == o[a]);
        }
    }
}

/// The credits kept in the index for a film: the crew names by label, and
/// under `主演` the first six actors by billing order (actors with the
/// same position keep TMDB's order) when there are any.
pub fn index_credits(crew: &Vec<CrewMember>, cast: &Vec<CastMember>) -> (r: Vec<(String, Vec<String>)>)
    ensures
        distinct_labels(r@),
        exists|sorted: Seq<(Seq<char>, u32)>|
            is_stable_sort(view_seq(cast@), sorted, billing_key()) && credits_map(r@) == {
                let m = crew_credits(crew@);
                if first_names(sorted, 6).len() > 0 {
                    m.insert(cast_label(), first_names(sorted, 6))
                } else {
                    m
                }
            },
{
    let mut credits: Vec<(String, Vec<String>)> = Vec::new();
    let mut i: usize = 0;
    while i < crew.len()
        invariant
            i <= crew@.len(),
            distinct_labels(credits@),
            credits_map(credits@) == crew_credits(crew@.take(i as int)),
        decreases crew@.len() - i,
    {
        assert(crew@.take(i + 1).drop_last() =~= crew@.take(i as int));
        assert(crew@.take(i + 1).last() == crew@[i as int]);
        match role_label_of(crew[i].job.as_str()) {
            Some(l) => {
                let name = chars_of(crew[i].name.as_str());
                add_credit(&mut credits, l, &name);
            },
            None => {},
        }
        i += 1;
    }
    assert(crew@.take(i as int) =~= crew@);
    let copy = copy_cast(cast);
    let sorted = stable_sort(copy);
    proof {
        assert forall|t: CastMember| #[trigger] key_of::<CastMember>()(t) == billing_key()(t@) by {}
        lemma_stable_sort_views(copy@, sorted@, key_of::<CastMember>(), billing_key());
    }
    let ghost sv = view_seq(sorted@);
    let n: usize = if sorted.len() <= 6 { sorted.len() } else { 6 };
    let mut names: Vec<String> = Vec::new();
    let mut k: usize = 0;
    while k < n
        invariant
            k <= n,
            n <= sorted@.len(),
            sv == view_seq(sorted@),
            string_views(names@) == sv.take(k as int).map_values(|c: (Seq<char>, u32)| c.0),
        decreases n - k,
    {
        let ghost before = names@;
        names.push(string_of(&chars_of(sorted[k].name.as_str())));
        assert(string_views(names@) =~= string_views(before).push(sv[k as int].0));
        assert(sv.take(k + 1).map_values(|c: (Seq<char>, u32)| c.0) =~= sv.take(k as int).map_values(
            |c: (Seq<char>, u32)| c.0,
        ).push(sv[k as int].0));
        k += 1;
    }
    assert(string_views(names@) =~= first_names(sv, 6));
    if n > 0 {
        proof {
            lemma_credits_map_lookup(credits@, cast_label());
            lemma_crew_credits_labels(crew@);
        }
        let label = string_of(&chars_of("主演"));
        let ghost o = credits@;
        assert forall|j: int| 0 <= j < o.len() implies (#[trigger] o[j]).0@ != cast_label() by {
            if o[j].0@ == cast_label() {
                assert(credits_map(o).contains_key(cast_label()));
            }
        }
        credits.push((label, names));
        assert(credits@.drop_last() =~= o);
        assert forall|a: int, b: int| 0 <= a < b < credits@.len() implies (#[trigger] credits@[a]).0@ != (#[trigger] credits@[b]).0@ by {
            if b < o.len() {
                assert(credits@[a] == o[a] && credits@[b] == o[b]);
            } else {
                assert(credits@[a] == o[a]);
            }
        }
    }
    credits
}

/// No crew job is kept under the cast's label.
proof fn lemma_crew_credits_labels(crew: Seq<CrewMember>)
    ensures
        !crew_credits(crew).contains_key(cast_label()),
    decreases crew.len(),
{
    reveal_strlit("主演");
    reveal_strlit("导演");
    reveal_strlit("编剧");
    reveal_strlit("摄影");
    reveal_strlit("配乐");
    reveal_strlit("剪辑");
    reveal_strlit("制片");
    assert(cast_label()[0] != "导演"@[0]);
    assert(cast_label()[0] != "编剧"@[0]);
    assert(cast_label()[0] != "摄影"@[0]);
    assert(cast_label()[0] != "配乐"@[0]);
    assert(cast_label()[0] != "剪辑"@[0]);
    assert(cast_label()[0] != "制片"@[0]);
    if crew.len() > 0 {
        lemma_crew_credits_labels(crew.drop_last());
    }
}

/// An entry that already has a poster is not fetched again, unless a
/// refresh is forced.
pub fn already_enriched(entry: &IndexEntry, force: Option<bool>) -> (r: bool)
    ensures
        r == (entry.poster_url is Some && !(force == Some(true))),
{
    let forced = match force {
        Some(f) => f,
        None => false,
    };
    entry.poster_url.is_some() && !forced
}

/// How enriching a library entry starts.
#[derive(Debug)]
pub enum EnrichStart<'a> {
    /// No entry has the id: the enrichment fails.
    NotInIndex,
    /// The entry already has its metadata: it is answered as it is.
    Done(&'a IndexEntry),
    /// The entry's metadata is fetched from TMDB.
    Fetch(&'a IndexEntry),
}

/// The first decision of enriching the entry with TMDB id `tmdb_id`: an id
/// that is not in the index fails; an entry that already has a poster is
/// answered as it is unless a refresh is forced; any other is fetched.
pub fn enrich_start<'a>(index: &'a LibraryIndex, tmdb_id: u64, force: Option<bool>) -> (r: EnrichStart<'a>)
    ensures
        match lookup(index.entries@, tmdb_id) {
            None => r is NotInIndex,
            Some(e) => if e.poster_url is Some && force != Some(true) {
                r matches EnrichStart::Done(x) && *x == e
            } else {
                r matches EnrichStart::Fetch(x) && *x == e
            },
        },
{
    match index.get_entry(tmdb_id) {
        None => EnrichStart::NotInIndex,
        Some(e) => {
            if already_enriched(e, force) {
                EnrichStart::Done(e)
            } else {
                EnrichStart::Fetch(e)
            }
        },
    }
}

impl<'a> EnrichStart<'a> {
    /// The error of an enrichment that cannot start: `索引中未找到该电影`
    /// ("this film was not found in the index") for an id that is not in
    /// the index, none otherwise.
    pub fn error_message(&self) -> (r: Option<String>)
        ensures
            self is NotInIndex ==> (r matches Some(m) && m@ == "索引中未找到该电影"@),
            !(self is NotInIndex) ==> r is None,
    {
        match self {
            EnrichStart::NotInIndex => Some(string_of(&chars_of("索引中未找到该电影"))),
            _ => None,
        }
    }
}

/// Where a poster of TMDB is downloaded from.
pub open spec fn poster_link(path: Seq<char>) -> Seq<char> {
    "https://image.tmdb.org/t/p/w300"@ + path
}

/// Where a poster of TMDB is downloaded from.
pub fn poster_link_of(path: &str) -> (r: String)
    ensures
        r@ == poster_link(path@),
{
    let mut v: Vec<char> = Vec::new();
    push_str(&mut v, "https://image.tmdb.org/t/p/w300");
    push_str(&mut v, path);
    string_of(&v)
}

/// How downloading a poster went.
#[derive(Debug, Clone, Copy, PartialEq, Eq)]
pub enum PosterFetch {
    /// Downloaded and saved in the film's directory.
    Saved,
    /// Downloaded, but saving it failed.
    SaveFailed,
    /// The answer came, but reading its body failed.
    ReadFailed,
    /// No answer, or an unsuccessful one.
    Unavailable,
}

/// The poster kept for an entry: the saved file when it is there already;
/// else, for a film with a poster, the saved file once the download is
/// saved, the link when it was downloaded but could not be kept, nothing
/// when the download failed; nothing for a film without a poster.
pub fn poster_choice(local_exists: bool, local: String, poster_path: Option<&str>, fetch: PosterFetch) -> (r: Option<String>)
    ensures
        local_exists ==> r == Some(local),
        !local_exists && poster_path is None ==> r is None,
        !local_exists && poster_path is Some ==> match fetch {
            PosterFetch::Saved => r == Some(local),
            PosterFetch::SaveFailed | PosterFetch::ReadFailed => r matches Some(u) && u@ == poster_link(poster_path->0@),
            PosterFetch::Unavailable => r is None,
        },
{
    if local_exists {
        return Some(local);
    }
    match poster_path {
        None => None,
        Some(p) => match fetch {
            PosterFetch::Saved => Some(local),
            PosterFetch::SaveFailed => Some(poster_link_of(p)),
            PosterFetch::ReadFailed => Some(poster_link_of(p)),
            PosterFetch::Unavailable => None,
        },
    }
}

/// The TMDB metadata applied to an index entry: the title, the year read
/// from the release date, the genres (none when the film has none), the
/// poster, the overview, the rating, the credits and the original title.
pub fn entry_metadata(
    title: String,
    release_date: &str,
    genres: Vec<String>,
    poster_url: Option<String>,
    overview: String,
    rating_bits: u64,
    credits: Vec<(String, Vec<String>)>,
    original_title: Option<String>,
) -> (r: EntryMetadata)
    ensures
        r.title == Some(title),
        r.year == date_year(release_date@),
        r.genres == (if genres@.len() == 0 { None } else { Some(genres) }),
        r.poster_url == poster_url,
        r.overview == Some(overview),
        r.rating_bits == Some(rating_bits),
        r.credits == credits,
        r.original_title == original_title,
{
    let year = date_year_of(release_date);
    let genres = if genres.len() == 0 {
        None
    } else {
        Some(genres)
    };
    EntryMetadata {
        title: Some(title),
        year,
        genres,
        poster_url,
        overview: Some(overview),
        rating_bits: Some(rating_bits),
        credits,
        original_title,
    }
}

// ---------------------------------------------------------------- the labels of crew jobs

/// `n` is listed under the label `l` in credits `v`.
pub open spec fn has_credit(v: Seq<(String, Vec<String>)>, l: Seq<char>, n: Seq<char>) -> bool {
    credits_map(v).contains_key(l) && credits_map(v)[l].contains(n)
}

/// Every crew member with a kept job is listed under its job's label, and
/// everyone listed under a label has a job with that label.
proof fn lemma_crew_credits_members(crew: Seq<CrewMember>)
    ensures
        forall|j: int|
            0 <= j < crew.len() && (#[trigger] role_label(crew[j].job@)) is Some ==> {
                let l = role_label(crew[j].job@)->0;
                crew_credits(crew).contains_key(l) && crew_credits(crew)[l].contains(crew[j].name@)
            },
        forall|l: Seq<char>, n: Seq<char>|
            crew_credits(crew).contains_key(l) && #[trigger] crew_credits(crew)[l].contains(n) ==> exists|j: int|
                0 <= j < crew.len() && role_label(crew[j].job@) == Some(l) && #[trigger] crew[j].name@ == n,
    decreases crew.len(),
{
    if crew.len() > 0 {
        let init = crew.drop_last();
        lemma_crew_credits_members(init);
        let m0 = crew_credits(init);
        let m = crew_credits(crew);
        let c = crew.last();
        assert forall|j: int|
            0 <= j < crew.len() && (#[trigger] role_label(crew[j].job@)) is Some implies {
                let l = role_label(crew[j].job@)->0;
                m.contains_key(l) && m[l].contains(crew[j].name@)
            } by {
            let l = role_label(crew[j].job@)->0;
            if j < crew.len() - 1 {
                assert(init[j] == crew[j]);
                assert(role_label(init[j].job@) is Some);
                assert(m0.contains_key(l) && m0[l].contains(crew[j].name@));
                match role_label(c.job@) {
                    None => {},
                    Some(l2) => {
                        if l2 == l && m0.contains_key(l2) && !m0[l2].contains(c.name@) {
                            assert(m[l] == m0[l].push(c.name@));
                            let k = choose|k: int| 0 <= k < m0[l].len() && m0[l][k] == crew[j].name@;
                            assert(m[l][k] == crew[j].name@);
                        }
                    },
                }
            } else {
                if m0.contains_key(l) && !m0[l].contains(c.name@) {
                    assert(m[l] == m0[l].push(c.name@));
                    assert(m[l][m0[l].len() as int] == c.name@);
                }
                if !m0.contains_key(l) {
                    assert(m[l] == seq![c.name@]);
                    assert(m[l][0] == c.name@);
                }
            }
        }
        assert forall|l: Seq<char>, n: Seq<char>|
            m.contains_key(l) && #[trigger] m[l].contains(n) implies exists|j: int|
                0 <= j < crew.len() && role_label(crew[j].job@) == Some(l) && #[trigger] crew[j].name@ == n by {
            let last = crew.len() - 1;
            assert(crew[last] == c);
            match role_label(c.job@) {
                None => {
                    let j = choose|j: int| 0 <= j < init.len() && role_label(init[j].job@) == Some(l) && #[trigger] init[j].name@ == n;
                    assert(crew[j] == init[j]);
                },
                Some(l2) => {
                    if l2 != l {
                        assert(m0.contains_key(l) && m0[l] == m[l]);
                        let j = choose|j: int| 0 <= j < init.len() && role_label(init[j].job@) == Some(l) && #[trigger] init[j].name@ == n;
                        assert(crew[j] == init[j]);
                    } else if n == c.name@ {
                        assert(role_label(crew[last].job@) == Some(l) && crew[last].name@ == n);
                    } else {
                        let k = choose|k: int| 0 <= k < m[l].len() && m[l][k] == n;
                        if m0.contains_key(l) {
                            if m0[l].contains(c.name@) {
                                assert(m[l] == m0[l]);
                            } else {
                                assert(m[l] == m0[l].push(c.name@));
                                assert(k < m0[l].len());
                                assert(m0[l][k] == n);
                            }
                            assert(m0[l].contains(n));
                            let j = choose|j: int| 0 <= j < init.len() && role_label(init[j].job@) == Some(l) && #[trigger] init[j].name@ == n;
                            assert(crew[j] == init[j]);
                        } else {
                            assert(m[l] == seq![c.name@]);
                            assert(m[l][k] == c.name@);
                        }
                    }
                },
            }
        }
    }
}

/// What [`index_credits`] gives for crew jobs: each crew member whose job
/// is kept is listed under that job's own label (Director under 导演,
/// Writer and Screenplay under 编剧, Director of Photography under 摄影,
/// Original Music Composer under 配乐, Editor under 剪辑, Producer under
/// 制片), and everyone listed under one of these labels has the matching
/// job.
pub proof fn lemma_index_credits_labels(crew: Seq<CrewMember>, cast: Seq<CastMember>, r: Seq<(String, Vec<String>)>)
    requires
        distinct_labels(r),
        exists|sorted: Seq<(Seq<char>, u32)>|
            is_stable_sort(view_seq(cast), sorted, billing_key()) && credits_map(r) == {
                let m = crew_credits(crew);
                if first_names(sorted, 6).len() > 0 {
                    m.insert(cast_label(), first_names(sorted, 6))
                } else {
                    m
                }
            },
    ensures
        forall|j: int| 0 <= j < crew.len() && (#[trigger] crew[j]).job@ == "Director"@ ==> has_credit(r, "导演"@, crew[j].name@),
        forall|j: int| 0 <= j < crew.len() && (#[trigger] crew[j]).job@ == "Writer"@ ==> has_credit(r, "编剧"@, crew[j].name@),
        forall|j: int| 0 <= j < crew.len() && (#[trigger] crew[j]).job@ == "Screenplay"@ ==> has_credit(r, "编剧"@, crew[j].name@),
        forall|j: int| 0 <= j < crew.len() && (#[trigger] crew[j]).job@ == "Director of Photography"@ ==> has_credit(r, "摄影"@, crew[j].name@),
        forall|j: int| 0 <= j < crew.len() && (#[trigger] crew[j]).job@ == "Original Music Composer"@ ==> has_credit(r, "配乐"@, crew[j].name@),
        forall|j: int| 0 <= j < crew.len() && (#[trigger] crew[j]).job@ == "Editor"@ ==> has_credit(r, "剪辑"@, crew[j].name@),
        forall|j: int| 0 <= j < crew.len() && (#[trigger] crew[j]).job@ == "Producer"@ ==> has_credit(r, "制片"@, crew[j].name@),
        forall|n: Seq<char>| #[trigger] has_credit(r, "导演"@, n) ==> exists|j: int| 0 <= j < crew.len() && crew[j].job@ == "Director"@ && #[trigger] crew[j].name@ == n,
        forall|n: Seq<char>| #[trigger] has_credit(r, "编剧"@, n) ==> exists|j: int| 0 <= j < crew.len() && (crew[j].job@ == "Writer"@ || crew[j].job@ == "Screenplay"@) && #[trigger] crew[j].name@ == n,
        forall|n: Seq<char>| #[trigger] has_credit(r, "摄影"@, n) ==> exists|j: int| 0 <= j < crew.len() && crew[j].job@ == "Director of Photography"@ && #[trigger] crew[j].name@ == n,
        forall|n: Seq<char>| #[trigger] has_credit(r, "配乐"@, n) ==> exists|j: int| 0 <= j < crew.len() && crew[j].job@ == "Original Music Composer"@ && #[trigger] crew[j].name@ == n,
        forall|n: Seq<char>| #[trigger] has_credit(r, "剪辑"@, n) ==> exists|j: int| 0 <= j < crew.len() && crew[j].job@ == "Editor"@ && #[trigger] crew[j].name@ == n,
        forall|n: Seq<char>| #[trigger] has_credit(r, "制片"@, n) ==> exists|j: int| 0 <= j < crew.len() && crew[j].job@ == "Producer"@ && #[trigger] crew[j].name@ == n,
{
    reveal_strlit("Director");
    reveal_strlit("Writer");
    reveal_strlit("Screenplay");
    reveal_strlit("Director of Photography");
    reveal_strlit("Original Music Composer");
    reveal_strlit("Editor");
    reveal_strlit("Producer");
    reveal_strlit("导演");
    reveal_strlit("编剧");
    reveal_strlit("摄影");
    reveal_strlit("配乐");
    reveal_strlit("剪辑");
    reveal_strlit("制片");
    reveal_strlit("主演");
    lemma_crew_credits_members(crew);
    let m = crew_credits(crew);
    let sorted = choose|sorted: Seq<(Seq<char>, u32)>|
        is_stable_sort(view_seq(cast), sorted, billing_key()) && credits_map(r) == {
            let m = crew_credits(crew);
            if first_names(sorted, 6).len() > 0 {
                m.insert(cast_label(), first_names(sorted, 6))
            } else {
                m
            }
        };
    assert(forall|l: Seq<char>| l != cast_label() ==> (credits_map(r).contains_key(l) == m.contains_key(l)) && (
        m.contains_key(l) ==> credits_map(r)[l] == m[l]));
    assert("Director"@.len() == 8 && "Director"@[0] == 'D');
    assert("Writer"@.len() == 6 && "Writer"@[0] == 'W');
    assert("Screenplay"@.len() == 10);
    assert("Director of Photography"@.len() == 23 && "Director of Photography"@[0] == 'D');
    assert("Original Music Composer"@.len() == 23 && "Original Music Composer"@[0] == 'O');
    assert("Editor"@.len() == 6 && "Editor"@[0] == 'E');
    assert("Producer"@.len() == 8 && "Producer"@[0] == 'P');
    assert("导演"@[0] != "编剧"@[0] && "导演"@[0] != "摄影"@[0] && "导演"@[0] != "配乐"@[0] && "导演"@[0] != "剪辑"@[0]
        && "导演"@[0] != "制片"@[0] && "编剧"@[0] != "摄影"@[0] && "编剧"@[0] != "配乐"@[0] && "编剧"@[0] != "剪辑"@[0]
        && "编剧"@[0] != "制片"@[0] && "摄影"@[0] != "配乐"@[0] && "摄影"@[0] != "剪辑"@[0] && "摄影"@[0] != "制片"@[0]
        && "配乐"@[0] != "剪辑"@[0] && "配乐"@[0] != "制片"@[0] && "剪辑"@[0] != "制片"@[0]);
    assert(role_label("Director"@) == Some("导演"@));
    assert("Writer"@.len() == 6 && "Director"@.len() == 8);
    assert("Writer"@ != "Director"@);
    assert(role_label("Writer"@) == Some("编剧"@));
    assert("Screenplay"@.len() == 10);
    assert("Screenplay"@ != "Director"@ && "Screenplay"@ != "Writer"@);
    assert(role_label("Screenplay"@) == Some("编剧"@));
    assert(role_label("Director of Photography"@) == Some("摄影"@));
    assert(role_label("Original Music Composer"@) == Some("配乐"@));
    assert(role_label("Editor"@) == Some("剪辑"@));
    assert(role_label("Producer"@) == Some("制片"@));
    assert forall|job: Seq<char>| role_label(job) == Some("剪辑"@) implies job == "Editor"@ by {}
    assert forall|job: Seq<char>| role_label(job) == Some("摄影"@) implies job == "Director of Photography"@ by {}
    assert forall|job: Seq<char>| role_label(job) == Some("导演"@) implies job == "Director"@ by {}
    assert forall|job: Seq<char>| role_label(job) == Some("配乐"@) implies job == "Original Music Composer"@ by {}
    assert forall|job: Seq<char>| role_label(job) == Some("制片"@) implies job == "Producer"@ by {}
    assert forall|job: Seq<char>| role_label(job) == Some("编剧"@) implies job == "Writer"@ || job == "Screenplay"@ by {}
    assert forall|j: int| 0 <= j < crew.len() implies (#[trigger] role_label(crew[j].job@)) is Some ==> {
        let l = role_label(crew[j].job@)->0;
        m.contains_key(l) && m[l].contains(crew[j].name@)
    } by {}
}

} // verus!
