use blowup::credits::{
    already_enriched, date_year_of, enriched_credits, entry_metadata, index_credits, key_crew,
    poster_choice, release_year_of, top_cast, PosterFetch, TmdbCastMember, TmdbCrewMember,
};
use blowup::download::{
    downloaded_entry, is_active_status, monitor_step, root_problem_message, DownloadRecord,
    DownloadStats, MonitorAction, RootProblem,
};
use blowup::error::{ConfigCmdError, SearchError, TmdbError};
use blowup::export_rows::{should_import, GenreRow, ImportStats, ImportTable, KnowledgeBaseExport};
use blowup::film_query::{film_count_head, film_filters, film_order, paging, SqlValue};
use blowup::genres::build_genre_tree;
use blowup::graph::{
    graph_links, graph_node_ids, node_label, node_name_of, node_relation_count, relation_count_scale, Relation,
};
use blowup::media::{detail_probe_args, media_info_from, to_file_media_info, ProbeFormat, ProbeStream};
use blowup::overlay_cache::{overlay_cache_key, OverlayKeyEntry};
use blowup::s3::{derive_signing_key, extract_host, hex_sha256, sign_v4, validate_config, SyncConfig};
use blowup::search::{parse_yts_response, quality_rank, YtsData, YtsMovie, YtsResponse, YtsTorrent};
use blowup::tmdb::{parse_movie_details, CastMember, Credits, CrewMember, Genre, MovieDetails};
use blowup::tmdb_search::{
    build_discover_params, merge_search_results, title_search_params, to_list_item, ListItem,
    MovieListItem, SearchFilters,
};
use hmac::Mac;
use sha2::Digest;

fn sample_details() -> MovieDetails {
    MovieDetails {
        title: "Blow-Up".to_string(),
        release_date: "1966-12-18".to_string(),
        overview: "A mod London photographer discovers he may have inadvertently photographed a murder.".to_string(),
        rating: format!("{:.1}", 7.2f64),
        genres: vec![
            Genre { name: "Drama".to_string() },
            Genre { name: "Mystery".to_string() },
            Genre { name: "Thriller".to_string() },
        ],
        credits: Credits {
            crew: vec![
                CrewMember { job: "Director".to_string(), name: "Michelangelo Antonioni".to_string() },
                CrewMember { job: "Producer".to_string(), name: "Carlo Ponti".to_string() },
            ],
            cast: vec![
                CastMember { name: "David Hemmings".to_string(), order: 0 },
                CastMember { name: "Vanessa Redgrave".to_string(), order: 1 },
                CastMember { name: "Sarah Miles".to_string(), order: 2 },
                CastMember { name: "Extra Actor".to_string(), order: 3 },
            ],
        },
    }
}

#[test]
fn tmdb_parse_movie_details_extracts_year() {
    let movie = parse_movie_details(&sample_details());
    assert_eq!(movie.year, "1966");
}

#[test]
fn tmdb_parse_movie_details_finds_director() {
    let movie = parse_movie_details(&sample_details());
    assert_eq!(movie.director, "Michelangelo Antonioni");
}

#[test]
fn tmdb_parse_movie_details_takes_top_3_actors() {
    let movie = parse_movie_details(&sample_details());
    assert_eq!(movie.actors, "David Hemmings, Vanessa Redgrave, Sarah Miles");
}

#[test]
fn tmdb_parse_movie_details_formats_genres() {
    let movie = parse_movie_details(&sample_details());
    assert_eq!(movie.genres, "Drama, Mystery, Thriller");
}

#[test]
fn tmdb_parse_movie_details_formats_rating() {
    let movie = parse_movie_details(&sample_details());
    assert_eq!(movie.rating, "7.2");
}

#[test]
fn mod_parse_movie_details_extracts_year() {
    let movie = parse_movie_details(&sample_details());
    assert_eq!(movie.year, "1966");
}

#[test]
fn mod_parse_movie_details_finds_director() {
    let movie = parse_movie_details(&sample_details());
    assert_eq!(movie.director, "Michelangelo Antonioni");
}

#[test]
fn mod_parse_movie_details_takes_top_3_actors() {
    let movie = parse_movie_details(&sample_details());
    assert_eq!(movie.actors, "David Hemmings, Vanessa Redgrave, Sarah Miles");
}

#[test]
fn mod_parse_movie_details_formats_genres() {
    let movie = parse_movie_details(&sample_details());
    assert_eq!(movie.genres, "Drama, Mystery, Thriller");
}

#[test]
fn mod_parse_movie_details_formats_rating() {
    let movie = parse_movie_details(&sample_details());
    assert_eq!(movie.rating, "7.2");
}

#[test]
fn actors_follow_billing_order() {
    let mut d = sample_details();
    d.credits.cast = vec![
        CastMember { name: "C".to_string(), order: 2 },
        CastMember { name: "A".to_string(), order: 0 },
        CastMember { name: "B2".to_string(), order: 1 },
        CastMember { name: "B1".to_string(), order: 1 },
    ];
    d.credits.crew = vec![];
    let movie = parse_movie_details(&d);
    assert_eq!(movie.actors, "A, B2, B1");
    assert_eq!(movie.director, "N/A");
}

#[test]
fn error_search_error_display() {
    let e = SearchError::NoResults("Blow-Up 1966".to_string());
    assert_eq!(e.to_string(), "No results found for query: Blow-Up 1966");
}

#[test]
fn tmdb_error_api_key_missing_display() {
    let e = TmdbError::ApiKeyMissing;
    assert!(e.to_string().contains("blowup config set tmdb.api_key"));
}

#[test]
fn config_cmd_error_unknown_key_display() {
    let e = ConfigCmdError::UnknownKey("foo.bar".to_string());
    assert!(e.to_string().contains("foo.bar"));
}

fn torrent(q: &str, url: &str, seeds: u32) -> YtsTorrent {
    YtsTorrent { quality: q.to_string(), url: url.to_string(), seeds, magnet_url: None }
}

fn make_yts_response(movies: Vec<YtsMovie>) -> YtsResponse {
    YtsResponse { data: YtsData { movies } }
}

#[test]
fn parse_single_movie() {
    let resp = make_yts_response(vec![YtsMovie {
        title: "Blow-Up".to_string(),
        year: 1966,
        torrents: vec![
            torrent("1080p", "http://x.com/a.torrent", 100),
            torrent("720p", "http://x.com/b.torrent", 200),
        ],
    }]);
    let results = parse_yts_response(resp).unwrap();
    assert_eq!(results.len(), 2);
    assert_eq!(results[0].quality, "1080p");
}

#[test]
fn quality_rank_order() {
    assert!(quality_rank("1080p") > quality_rank("720p"));
    assert!(quality_rank("2160p") > quality_rank("1080p"));
}

#[test]
fn empty_movies_returns_empty_vec() {
    let resp = make_yts_response(vec![]);
    let results = parse_yts_response(resp).unwrap();
    assert!(results.is_empty());
}

#[test]
fn releases_rank_by_quality_then_seeds() {
    let resp = make_yts_response(vec![
        YtsMovie {
            title: "A".to_string(),
            year: 2000,
            torrents: vec![torrent("720p", "a1", 5), torrent("1080p", "a2", 1)],
        },
        YtsMovie {
            title: "B".to_string(),
            year: 2001,
            torrents: vec![torrent("1080p", "b1", 9), torrent("3D", "b2", 100)],
        },
    ]);
    let r = parse_yts_response(resp).unwrap();
    let urls: Vec<&str> = r.iter().map(|m| m.torrent_url.as_deref().unwrap()).collect();
    assert_eq!(urls, vec!["b1", "a2", "a1", "b2"]);
}

fn overlay(path: &str, y: f64, color: &str, size: u32) -> OverlayKeyEntry {
    OverlayKeyEntry { path: path.to_string(), y_bits: y.to_bits(), color: color.to_string(), font_size: size }
}

#[test]
fn cache_key_stable() {
    let configs = vec![overlay("/a.srt", 0.1, "#FFFFFF", 48), overlay("/b.srt", 0.9, "#FFFF00", 36)];
    let key1 = overlay_cache_key(&configs);
    let key2 = overlay_cache_key(&configs);
    assert_eq!(key1, key2);
    assert!(key1.starts_with(".blowup_overlay_"));
    assert!(key1.ends_with(".ass"));
}

#[test]
fn cache_key_order_independent() {
    let a = overlay("/a.srt", 0.1, "#FFFFFF", 48);
    let b = overlay("/b.srt", 0.9, "#FFFF00", 36);
    let key1 = overlay_cache_key(&vec![a.clone(), b.clone()]);
    let key2 = overlay_cache_key(&vec![b, a]);
    assert_eq!(key1, key2);
}

#[test]
fn cache_key_depends_on_settings() {
    let a = overlay("/a.srt", 0.1, "#FFFFFF", 48);
    let b = overlay("/a.srt", 0.1, "#FFFFFF", 40);
    assert_ne!(overlay_cache_key(&vec![a]), overlay_cache_key(&vec![b]));
}

type HmacSha256 = hmac::Hmac<sha2::Sha256>;

fn reference_hmac(key: &[u8], data: &[u8]) -> Vec<u8> {
    let mut mac = HmacSha256::new_from_slice(key).unwrap();
    mac.update(data);
    mac.finalize().into_bytes().to_vec()
}

#[test]
fn signing_matches_a_direct_computation() {
    assert_eq!(hex_sha256(b"abc"), hex::encode(sha2::Sha256::digest(b"abc")));
    let k_date = reference_hmac(b"AWS4secret", b"20240101");
    let k_region = reference_hmac(&k_date, b"garage");
    let k_service = reference_hmac(&k_region, b"s3");
    let k = reference_hmac(&k_service, b"aws4_request");
    assert_eq!(derive_signing_key("secret", "20240101"), k);
    let headers = [("X-Amz-Date", "20240101T000000Z"), ("Host", " example.com ")];
    let auth = sign_v4("GET", "/bucket/key", "", &headers, "UNSIGNED", "20240101", "20240101T000000Z", "AK", "secret");
    let canonical = "GET\n/bucket/key\n\nhost:example.com\nx-amz-date:20240101T000000Z\n\nhost;x-amz-date\nUNSIGNED";
    let scope = "20240101/garage/s3/aws4_request";
    let to_sign = format!(
        "AWS4-HMAC-SHA256\n20240101T000000Z\n{}\n{}",
        scope,
        hex::encode(sha2::Sha256::digest(canonical.as_bytes()))
    );
    let sig = hex::encode(reference_hmac(&k, to_sign.as_bytes()));
    assert_eq!(
        auth,
        format!("AWS4-HMAC-SHA256 Credential=AK/{}, SignedHeaders=host;x-amz-date, Signature={}", scope, sig)
    );
}

#[test]
fn sync_settings_are_checked() {
    let mut cfg = SyncConfig {
        endpoint: String::new(),
        bucket: "b".to_string(),
        access_key: "a".to_string(),
        secret_key: "s".to_string(),
    };
    assert_eq!(validate_config(&cfg).unwrap_err(), "未配置 S3 Endpoint");
    cfg.endpoint = "http://localhost:3900".to_string();
    assert!(validate_config(&cfg).is_ok());
    assert_eq!(extract_host("http://localhost:3900").unwrap(), "localhost:3900");
    assert_eq!(extract_host("https://s3.example.com/x").unwrap(), "s3.example.com");
    assert!(extract_host("not a url").is_err());
}

fn crew(id: i64, name: &str, job: &str) -> TmdbCrewMember {
    TmdbCrewMember { id, name: name.to_string(), job: job.to_string(), department: "x".to_string() }
}

#[test]
fn credits_keep_key_crew_and_first_cast() {
    let kept = key_crew(vec![
        crew(1, "Antonioni", "Director"),
        crew(2, "Ponti", "Producer"),
        crew(3, "Di Palma", "Director of Photography"),
    ]);
    let names: Vec<&str> = kept.iter().map(|c| c.name.as_str()).collect();
    assert_eq!(names, vec!["Antonioni", "Di Palma"]);
    let cast: Vec<TmdbCastMember> = (0..7)
        .map(|i| TmdbCastMember { id: i, name: format!("A{i}"), character: "c".to_string() })
        .collect();
    let top = top_cast(cast);
    assert_eq!(top.len(), 5);
    assert_eq!(top[4].name, "A4");
    assert_eq!(release_year_of(Some("1966-12-18")), Some(1966));
    assert_eq!(release_year_of(Some("19")), None);
    assert_eq!(release_year_of(None), None);
    assert_eq!(date_year_of("1966-12-18"), Some(1966));
    assert_eq!(date_year_of(""), None);
}

#[test]
fn enriched_credits_take_director_and_three_actors() {
    let d = sample_details();
    let e = enriched_credits(1052, &d.credits.crew, &d.credits.cast);
    assert_eq!(e.id, 1052);
    assert_eq!(e.director.as_deref(), Some("Michelangelo Antonioni"));
    assert_eq!(e.cast, vec!["David Hemmings", "Vanessa Redgrave", "Sarah Miles"]);
}

#[test]
fn index_credits_group_names_by_role() {
    let crew = vec![
        CrewMember { job: "Director".to_string(), name: "Antonioni".to_string() },
        CrewMember { job: "Writer".to_string(), name: "Guerra".to_string() },
        CrewMember { job: "Screenplay".to_string(), name: "Guerra".to_string() },
        CrewMember { job: "Screenplay".to_string(), name: "Bond".to_string() },
        CrewMember { job: "Gaffer".to_string(), name: "X".to_string() },
    ];
    let cast: Vec<CastMember> = (0..8)
        .map(|i| CastMember { name: format!("A{i}"), order: 7 - i })
        .collect();
    let credits = index_credits(&crew, &cast);
    let get = |l: &str| credits.iter().find(|(k, _)| k == l).map(|(_, v)| v.clone());
    assert_eq!(get("导演"), Some(vec!["Antonioni".to_string()]));
    assert_eq!(get("编剧"), Some(vec!["Guerra".to_string(), "Bond".to_string()]));
    assert_eq!(get("主演").unwrap(), vec!["A7", "A6", "A5", "A4", "A3", "A2"]);
    assert_eq!(credits.len(), 3);
    assert!(index_credits(&vec![], &vec![]).is_empty());
}

#[test]
fn enrichment_decisions() {
    assert_eq!(poster_choice(true, "/l/poster.jpg".to_string(), Some("/x.jpg"), PosterFetch::Unavailable), Some("/l/poster.jpg".to_string()));
    assert_eq!(poster_choice(false, "/l/poster.jpg".to_string(), Some("/x.jpg"), PosterFetch::Saved), Some("/l/poster.jpg".to_string()));
    assert_eq!(
        poster_choice(false, "/l/poster.jpg".to_string(), Some("/x.jpg"), PosterFetch::SaveFailed),
        Some("https://image.tmdb.org/t/p/w300/x.jpg".to_string())
    );
    assert_eq!(poster_choice(false, "/l/poster.jpg".to_string(), Some("/x.jpg"), PosterFetch::Unavailable), None);
    assert_eq!(poster_choice(false, "/l/poster.jpg".to_string(), None, PosterFetch::Saved), None);
    let m = entry_metadata("Blow-Up".to_string(), "1966-12-18", vec![], None, "o".to_string(), 7.2f64.to_bits(), vec![], None);
    assert_eq!(m.year, Some(1966));
    assert!(m.genres.is_none());
    let e = downloaded_entry(5, "T".to_string(), "Dir".to_string(), "Dir".to_string(), None, vec![], vec![], "now".to_string());
    assert!(!already_enriched(&e, None));
}

fn rel(a: i64, b: i64, t: &str) -> Relation {
    Relation { from_id: a, to_id: b, relation_type: t.to_string() }
}

#[test]
fn graph_around_a_centre_reaches_two_steps() {
    let rels = vec![rel(1, 2, "x"), rel(2, 3, "y"), rel(3, 4, "z"), rel(5, 1, "w")];
    let mut ids = graph_node_ids(&rels, Some(1));
    ids.sort();
    assert_eq!(ids, vec![1, 2, 3, 5]);
    let mut all = graph_node_ids(&rels, None);
    all.sort();
    assert_eq!(all, vec![1, 2, 3, 4, 5]);
    let alone = graph_node_ids(&rels, Some(9));
    assert_eq!(alone, vec![9]);
    let links = graph_links(&rels, &ids);
    assert_eq!(links.len(), 3);
    assert_eq!(links[0].source, "e1");
    assert_eq!(links[1].target, "e3");
    assert_eq!(links[2].role, "w");
    assert_eq!(node_relation_count(&rels, &ids, 1), 2);
    assert_eq!(node_relation_count(&rels, &ids, 3), 1);
    assert_eq!(node_name_of(-4), "e-4");
    let names = vec![(1, "A".to_string()), (2, "B".to_string()), (1, "A2".to_string())];
    assert_eq!(node_label(&names, 1), "A2");
    assert_eq!(node_label(&names, 7), "");
}

#[test]
fn graph_with_relations() {
    let rels = vec![rel(1, 2, "x"), rel(2, 3, "y")];
    assert_eq!(rels.len(), 2);
    let ids = graph_node_ids(&rels, None);
    assert_eq!(ids.len(), 3);
}

#[test]
fn node_sizes_are_measured_against_the_busiest_node() {
    let rels = vec![rel(1, 2, "x"), rel(2, 3, "y"), rel(2, 4, "z")];
    let ids = graph_node_ids(&rels, None);
    assert_eq!(node_relation_count(&rels, &ids, 2), 3);
    assert_eq!(relation_count_scale(&rels, &ids), 3);
    let lonely = graph_node_ids(&rels, Some(9));
    assert_eq!(lonely, vec![9]);
    assert_eq!(relation_count_scale(&rels, &lonely), 1);
}

fn genre(id: i64, name: &str, parent: Option<i64>) -> GenreRow {
    GenreRow { id, name: name.to_string(), description: None, parent_id: parent, period: None }
}

#[test]
fn build_genre_tree_with_children() {
    let rows = vec![genre(1, "Drama", None), genre(2, "Neorealism", Some(1)), genre(3, "New Wave", Some(1))];
    let tree = build_genre_tree(&rows, &vec![(2, 4), (1, 1)]);
    assert_eq!(tree.len(), 1);
    assert_eq!(tree[0].name, "Drama");
    assert_eq!(tree[0].children.len(), 2);
    assert_eq!(tree[0].film_count, 1);
    assert_eq!(tree[0].children[0].film_count, 4);
    assert_eq!(tree[0].children[1].film_count, 0);
}

#[test]
fn build_genre_tree_empty() {
    assert!(build_genre_tree(&vec![], &vec![]).is_empty());
}

#[test]
fn genre_cycles_are_cut() {
    let rows = vec![genre(1, "A", Some(2)), genre(2, "B", Some(1)), genre(3, "C", None)];
    let tree = build_genre_tree(&rows, &vec![]);
    assert_eq!(tree.len(), 1);
    assert_eq!(tree[0].name, "C");
}

#[test]
fn film_list_query() {
    let p = paging(None, None);
    assert_eq!((p.page, p.page_size, p.offset), (1, 20, 0));
    let p = paging(Some(3), Some(500));
    assert_eq!((p.page, p.page_size, p.offset), (3, 100, 200));
    let p = paging(Some(-2), Some(0));
    assert_eq!((p.page, p.page_size, p.offset), (1, 1, 0));
    let (sql, vals) = film_filters(Some("Blow"), Some(4), None, Some(1980), None, Some(false));
    assert_eq!(
        sql,
        " AND (f.title LIKE '%' || ? || '%' OR f.original_title LIKE '%' || ? || '%') AND fg.genre_id = ? AND f.year <= ? AND NOT EXISTS(SELECT 1 FROM library_items li WHERE li.film_id = f.id)"
    );
    assert_eq!(vals.len(), 4);
    assert!(matches!(&vals[2], SqlValue::Int(4)));
    let (sql, vals) = film_filters(Some(""), None, None, None, None, None);
    assert!(sql.is_empty() && vals.is_empty());
    assert_eq!(film_order(Some("year"), None), " ORDER BY f.year DESC NULLS LAST");
    assert_eq!(film_order(Some("other"), Some(false)), " ORDER BY f.created_at ASC NULLS LAST");
    assert_eq!(
        film_count_head(true),
        "SELECT COUNT(DISTINCT f.id) FROM films f INNER JOIN film_genres fg ON f.id = fg.film_id WHERE 1=1"
    );
}

fn list_item(id: u64, date: Option<&str>) -> ListItem {
    ListItem {
        id,
        title: format!("T{id}"),
        original_title: format!("O{id}"),
        release_date: date.map(String::from),
        overview: String::new(),
        vote_average_bits: 0,
        poster_path: None,
        genre_ids: vec![],
    }
}

#[test]
fn tmdb_search_lists() {
    let a = to_list_item(list_item(1, Some("1966-12-18")));
    assert_eq!(a.year, "1966");
    assert_eq!(to_list_item(list_item(2, None)).year, "");
    assert_eq!(to_list_item(list_item(3, Some("é123"))).year, "é12");
    assert_eq!(to_list_item(list_item(4, Some("123é"))).year, "");
    let by_title: Vec<MovieListItem> = vec![to_list_item(list_item(1, None)), to_list_item(list_item(2, None))];
    let by_person: Vec<MovieListItem> = vec![
        to_list_item(list_item(2, None)),
        to_list_item(list_item(3, None)),
        to_list_item(list_item(3, None)),
        to_list_item(list_item(4, None)),
    ];
    let merged = merge_search_results(by_title, by_person);
    let ids: Vec<u64> = merged.iter().map(|m| m.id).collect();
    assert_eq!(ids, vec![1, 2, 3, 4]);
    let f = SearchFilters {
        year_from: Some(1960),
        year_to: None,
        genre_ids: vec![18, 9648],
        min_rating: Some("7.5".to_string()),
        sort_by: None,
        page: None,
    };
    let p = build_discover_params("k", &f);
    let pairs: Vec<(&str, &str)> = p.iter().map(|(a, b)| (a.as_str(), b.as_str())).collect();
    assert_eq!(
        pairs,
        vec![
            ("api_key", "k"),
            ("language", "en-US"),
            ("page", "1"),
            ("sort_by", "vote_average.desc"),
            ("vote_count.gte", "50"),
            ("primary_release_date.gte", "1960-01-01"),
            ("with_genres", "18,9648"),
            ("vote_average.gte", "7.5"),
        ]
    );
    let t = title_search_params("k", "Blow", Some(2));
    assert_eq!(t[2].1, "2");
}

#[test]
fn probe_results_are_read() {
    let format = ProbeFormat {
        size: Some("1073741824".to_string()),
        duration: Some("7200.5".to_string()),
        format_name: Some("matroska".to_string()),
        bit_rate: Some("abc".to_string()),
    };
    let streams = Some(vec![ProbeStream {
        index: None,
        codec_type: None,
        codec_name: Some("h264".to_string()),
        width: Some(1920),
        height: Some(1080),
        r_frame_rate: Some("24/1".to_string()),
        bit_rate: Some("5000".to_string()),
        channels: None,
        sample_rate: None,
        language: Some("eng".to_string()),
        title: None,
    }]);
    let info = media_info_from("/m/a.mkv".to_string(), &format, &streams);
    assert_eq!(info.file_size, Some(1073741824));
    assert_eq!(info.bit_rate, None);
    assert_eq!(info.streams[0].index, 0);
    assert_eq!(info.streams[0].codec_type, "unknown");
    assert_eq!(info.streams[0].bit_rate, Some(5000));
    let cached = to_file_media_info(info, Some(7200.5f64.to_bits()));
    assert_eq!(cached.streams[0].codec_name, "h264");
    assert_eq!(detail_probe_args("/m/a.mkv")[4], "-show_format");
}

#[test]
fn download_watch_and_records() {
    let done = DownloadStats { progress_bytes: 10, total_bytes: 10, finished: true, error: Some("late".to_string()) };
    assert!(matches!(monitor_step(&done), MonitorAction::Complete));
    let failed = DownloadStats { progress_bytes: 1, total_bytes: 10, finished: false, error: Some("boom".to_string()) };
    match monitor_step(&failed) {
        MonitorAction::Fail(m) => assert_eq!(m, "boom"),
        _ => panic!("expected a failure"),
    }
    let running = DownloadStats { progress_bytes: 1, total_bytes: 10, finished: false, error: None };
    assert!(matches!(monitor_step(&running), MonitorAction::Continue));
    let e = downloaded_entry(42, "Film".to_string(), "dir".to_string(), "Dir".to_string(), Some(1999), vec![], vec!["a.mkv".to_string()], "t".to_string());
    assert_eq!(e.path, "dir/42");
    assert!(is_active_status("paused"));
    assert!(!is_active_status("completed"));
    let rec = DownloadRecord {
        id: 1,
        tmdb_id: None,
        title: "T".to_string(),
        director: None,
        quality: None,
        target: "magnet:".to_string(),
        status: "failed".to_string(),
        torrent_id: None,
        progress_bytes: 0,
        total_bytes: 0,
        error_message: None,
        started_at: "s".to_string(),
        completed_at: None,
    };
    assert_eq!(rec.film_id(), 0);
    assert_eq!(rec.director_name(), "Unknown");
    assert_eq!(
        root_problem_message(&RootProblem::NotDirectory, "/x"),
        "库目录路径「/x」不是一个目录，请在设置中修改"
    );
}

#[test]
fn import_counts_and_summary() {
    let mut stats = ImportStats::new();
    stats.record(ImportTable::People);
    stats.record(ImportTable::People);
    stats.record(ImportTable::Wiki);
    assert_eq!(stats.summary(), "导入完成: 2 影人, 0 流派, 0 影片, 1 条 Wiki, 0 条评论");
    assert!(should_import(0));
    assert!(!should_import(1));
    let export = KnowledgeBaseExport::new("now".to_string(), vec![], vec![], vec![], vec![], vec![], vec![], vec![], vec![], vec![]);
    assert_eq!(export.version, "2.0.0");
}

#[test]
fn cache_key_has_its_shape() {
    let key = overlay_cache_key(&vec![overlay("/a.srt", 0.1, "#FFFFFF", 48)]);
    assert_eq!(key.len(), 36);
    assert!(key.starts_with(".blowup_overlay_"));
    assert!(key.ends_with(".ass"));
    assert!(key[16..32].chars().all(|c| c.is_ascii_digit() || ('a'..='f').contains(&c)));
}
