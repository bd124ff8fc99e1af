use std::io::Write;
use blowup::error::{SearchError, TmdbError};
use blowup::film_query::{film_list_head, person_insert, person_lookup, SqlValue};
use blowup::media::{video_probe, ProbeFormat, ProbeStream, ScanResult};
use blowup::omdb::{check_omdb_response, omdb_params, OmdbError, OmdbMovie};
use blowup::s3::{get_failure, head_result, put_failure, signed_request, SyncConfig};
use blowup::search::{search_outcome, yts_params, MovieResult};
use blowup::shift::{apply_offset, offset_fits_in};
use blowup::srt::{format_srt_ts, parse_srt};
use blowup::tmdb::TmdbMovie;
use blowup::tmdb_search::{first_movie_id, lookup_params};

fn pairs(p: &[(String, String)]) -> Vec<(&str, &str)> {
    p.iter().map(|(a, b)| (a.as_str(), b.as_str())).collect()
}

#[test]
fn omdb_false_response_is_not_found() {
    match check_omdb_response(Some("False"), Some("Movie not found!")) {
        Err(OmdbError::NotFound(m)) => assert_eq!(m, "Movie not found!"),
        other => panic!("unexpected {:?}", other),
    }
    match check_omdb_response(Some("False"), None) {
        Err(OmdbError::NotFound(m)) => assert_eq!(m, "unknown"),
        other => panic!("unexpected {:?}", other),
    }
    assert!(check_omdb_response(Some("True"), None).is_ok());
    assert!(check_omdb_response(None, Some("ignored")).is_ok());
}

#[test]
fn omdb_params_need_a_key() {
    assert!(matches!(omdb_params("", "Blow-Up", None), Err(OmdbError::ApiKeyMissing)));
    let p = omdb_params("k", "Blow-Up", Some(1966)).unwrap();
    assert_eq!(
        pairs(&p),
        vec![("apikey", "k"), ("t", "Blow-Up"), ("plot", "short"), ("y", "1966")]
    );
    let p = omdb_params("k", "Blow-Up", None).unwrap();
    assert_eq!(pairs(&p), vec![("apikey", "k"), ("t", "Blow-Up"), ("plot", "short")]);
}

#[test]
fn omdb_info_text_cuts_the_year() {
    let m = OmdbMovie {
        title: "Blow-Up".to_string(),
        year: "1966–1967".to_string(),
        rated: "R".to_string(),
        imdb_rating: "7.5".to_string(),
        genre: "Drama".to_string(),
        director: "Michelangelo Antonioni".to_string(),
        actors: "David Hemmings".to_string(),
        plot: "A photographer.".to_string(),
        poster: "N/A".to_string(),
        response: "True".to_string(),
    };
    let t = m.info_text();
    assert!(t.starts_with("Title:    Blow-Up (1966–1967)\nGenre:    Drama\n"));
    assert!(t.contains("Rating:   7.5/10 (IMDb)\nRated:    R\n"));
    assert!(t.ends_with("blowup search \"Blow-Up\" --year 1966\n"));
}

#[test]
fn tmdb_info_text_lists_the_film() {
    let m = TmdbMovie {
        title: "Blow-Up".to_string(),
        year: "1966".to_string(),
        genres: "Drama, Mystery".to_string(),
        director: "Michelangelo Antonioni".to_string(),
        actors: "David Hemmings, Vanessa Redgrave".to_string(),
        rating: "7.1".to_string(),
        overview: "A photographer.".to_string(),
    };
    assert_eq!(
        m.info_text(),
        "Title:    Blow-Up (1966)\nGenre:    Drama, Mystery\nDirector: Michelangelo Antonioni\nActors:   David Hemmings, Vanessa Redgrave\nRating:   7.1/10 (TMDB)\nPlot:     A photographer.\n\n💡 搜索种子: blowup search \"Blow-Up\" --year 1966\n"
    );
}

#[test]
fn yts_params_with_and_without_year() {
    assert_eq!(
        pairs(&yts_params("blow up", Some(1966))),
        vec![("query_term", "blow up"), ("sort_by", "seeds"), ("order_by", "desc"), ("year", "1966")]
    );
    assert_eq!(
        pairs(&yts_params("blow up", None)),
        vec![("query_term", "blow up"), ("sort_by", "seeds"), ("order_by", "desc")]
    );
}

#[test]
fn search_outcome_reports_empty_results() {
    let found = vec![MovieResult {
        title: "Blow-Up".to_string(),
        year: 1966,
        quality: "1080p".to_string(),
        magnet: None,
        torrent_url: Some("https://example.org/t".to_string()),
        seeds: 12,
    }];
    let r = search_outcome("blow up", Ok(found)).unwrap();
    assert_eq!(r.len(), 1);
    assert_eq!(r[0].seeds, 12);
    match search_outcome("nothing", Ok(Vec::new())) {
        Err(SearchError::NoResults(q)) => assert_eq!(q, "nothing"),
        other => panic!("unexpected {:?}", other),
    }
    match search_outcome("failed", Err(SearchError::CdpUnavailable("x".to_string()))) {
        Err(SearchError::NoResults(q)) => assert_eq!(q, "failed"),
        other => panic!("unexpected {:?}", other),
    }
}

#[test]
fn tmdb_lookup_params_and_first_id() {
    assert!(matches!(lookup_params("", "Blow-Up", None), Err(TmdbError::ApiKeyMissing)));
    let p = lookup_params("key", "Blow-Up", Some(1966)).unwrap();
    assert_eq!(
        pairs(&p),
        vec![("api_key", "key"), ("query", "Blow-Up"), ("language", "en-US"), ("year", "1966")]
    );
    assert_eq!(first_movie_id(&vec![1052, 7], "Blow-Up").unwrap(), 1052);
    match first_movie_id(&Vec::new(), "Nothing") {
        Err(TmdbError::NotFound(t)) => assert_eq!(t, "Nothing"),
        other => panic!("unexpected {:?}", other),
    }
}

fn sync_config(endpoint: &str) -> SyncConfig {
    SyncConfig {
        endpoint: endpoint.to_string(),
        bucket: "kb".to_string(),
        access_key: "AK".to_string(),
        secret_key: "SK".to_string(),
    }
}

#[test]
fn signed_request_builds_url_and_host() {
    let hash = "e3b0c44298fc1c149afbf4c8996fb92427ae41e4649b934ca495991b7852b855";
    let r = signed_request(
        &sync_config("http://127.0.0.1:3900//"),
        "HEAD",
        "blowup.json",
        hash,
        "20240101",
        "20240101T000000Z",
    )
    .unwrap();
    assert_eq!(r.url, "http://127.0.0.1:3900/kb/blowup.json");
    assert_eq!(r.host, "127.0.0.1:3900");
    assert_eq!(r.content_hash, hash);
    assert!(r.authorization.starts_with(
        "AWS4-HMAC-SHA256 Credential=AK/20240101/garage/s3/aws4_request, SignedHeaders=host;x-amz-content-sha256;x-amz-date, Signature="
    ));
    let mut incomplete = sync_config("http://127.0.0.1:3900");
    incomplete.bucket = String::new();
    assert!(signed_request(&incomplete, "GET", "k", hash, "20240101", "20240101T000000Z").is_err());
}

#[test]
fn head_status_is_read() {
    assert_eq!(head_result(200), Ok(true));
    assert_eq!(head_result(404), Ok(false));
    assert_eq!(head_result(403), Err("认证失败，请检查 Access Key 和 Secret Key".to_string()));
    assert_eq!(head_result(500), Err("S3 HEAD 失败 (500)".to_string()));
}

#[test]
fn get_and_put_failures_are_described() {
    assert_eq!(get_failure(404, "Not Found", ""), "云端不存在该文件，请先导出");
    assert_eq!(get_failure(500, "Internal Server Error", "boom"), "S3 GET 失败 (Internal Server Error): boom");
    assert_eq!(put_failure("Forbidden", "denied"), "S3 PUT 失败 (Forbidden): denied");
}

fn stream(kind: &str, codec: &str, w: Option<i64>, h: Option<i64>) -> ProbeStream {
    ProbeStream {
        index: None,
        codec_type: Some(kind.to_string()),
        codec_name: Some(codec.to_string()),
        width: w,
        height: h,
        r_frame_rate: None,
        bit_rate: None,
        channels: None,
        sample_rate: None,
        language: None,
        title: None,
    }
}

#[test]
fn video_probe_takes_first_streams() {
    let format = ProbeFormat {
        size: Some("734003200".to_string()),
        duration: Some("6660.5".to_string()),
        format_name: None,
        bit_rate: None,
    };
    let streams = Some(vec![
        stream("audio", "aac", None, None),
        stream("video", "h264", Some(1920), Some(1080)),
        stream("video", "mjpeg", Some(320), Some(240)),
        stream("audio", "ac3", None, None),
    ]);
    let p = video_probe(&format, &streams);
    assert_eq!(p.file_size, Some(734003200));
    assert_eq!(p.video_codec.as_deref(), Some("h264"));
    assert_eq!(p.audio_codec.as_deref(), Some("aac"));
    assert_eq!(p.resolution.as_deref(), Some("1920x1080"));
    let empty = video_probe(&ProbeFormat { size: Some("big".to_string()), duration: None, format_name: None, bit_rate: None }, &None);
    assert_eq!(empty.file_size, None);
    assert_eq!(empty.video_codec, None);
    assert_eq!(empty.resolution, None);
}

#[test]
fn scan_result_counts() {
    let mut s = ScanResult::new();
    s.add();
    s.add();
    s.skip();
    s.fail("/m/a.mkv", "no such file");
    assert_eq!(s.added, 2);
    assert_eq!(s.skipped, 1);
    assert_eq!(s.errors, vec!["/m/a.mkv: no such file".to_string()]);
}

#[test]
fn srt_timing_reads_back_what_was_written() {
    for (a, b) in [(0i64, 1), (1_000, 4_074), (3_723_004, 3_725_999), (359_999_999, 359_999_999)] {
        let content = format!("1\n{} --> {}\nline\n", format_srt_ts(a), format_srt_ts(b));
        let cues = parse_srt(&content);
        assert_eq!(cues.len(), 1);
        assert_eq!((cues[0].start_ms, cues[0].end_ms), (a, b));
    }
}

#[test]
fn shift_back_undoes_shift() {
    let original = "1\n00:00:05,000 --> 00:00:07,500\nHello\n";
    let shifted = apply_offset(original, 2_500).unwrap();
    assert_eq!(shifted, "1\n00:00:07,500 --> 00:00:10,000\nHello\n");
    assert_eq!(apply_offset(&shifted, -2_500).unwrap(), original);
}

#[test]
fn year_tokens() {
    assert!(blowup::subtitle_search::is_year("1966"));
    assert!(blowup::subtitle_search::is_year("2024"));
    assert!(!blowup::subtitle_search::is_year("3001"));
    assert!(!blowup::subtitle_search::is_year("2500"));
    assert!(!blowup::subtitle_search::is_year("1234"));
    assert!(blowup::subtitle_search::is_year("1900"));
    assert!(blowup::subtitle_search::is_year("2099"));
    assert!(!blowup::subtitle_search::is_year("196"));
    assert!(!blowup::subtitle_search::is_year("19a6"));
}

#[test]
fn people_of_a_film_are_found_by_tmdb_id_or_name() {
    let (sql, v) = person_lookup(Some(4), "Michelangelo Antonioni");
    assert_eq!(sql, "SELECT id FROM people WHERE tmdb_id = ?");
    assert!(matches!(v, SqlValue::Int(4)));
    let (sql, v) = person_lookup(None, "Michelangelo Antonioni");
    assert_eq!(sql, "SELECT id FROM people WHERE name = ?");
    assert!(matches!(v, SqlValue::Text(ref t) if t == "Michelangelo Antonioni"));
    let (sql, vals) = person_insert(Some(4), "Michelangelo Antonioni", "director");
    assert_eq!(sql, "INSERT INTO people (name, primary_role, tmdb_id) VALUES (?, ?, ?)");
    assert_eq!(vals.len(), 3);
    assert!(matches!(vals[2], SqlValue::Int(4)));
    let (sql, vals) = person_insert(None, "Monica Vitti", "actor");
    assert_eq!(sql, "INSERT INTO people (name, primary_role) VALUES (?, ?)");
    assert!(matches!(&vals[..], [SqlValue::Text(a), SqlValue::Text(b)] if a == "Monica Vitti" && b == "actor"));
}

#[test]
fn film_list_query_joins_genres_when_asked() {
    let plain = film_list_head(false);
    assert!(plain.starts_with("SELECT DISTINCT f.id, f.title"));
    assert!(plain.ends_with("FROM films f WHERE 1=1"));
    assert!(film_list_head(true).ends_with("FROM films f INNER JOIN film_genres fg ON f.id = fg.film_id WHERE 1=1"));
}

fn omdb_body(text: &str) -> serde_json::Value {
    serde_json::from_str(text).unwrap()
}

#[test]
fn parse_valid_response() {
    let body = omdb_body(
        r#"{"Title": "Blow-Up", "Year": "1966", "Rated": "NR", "imdbRating": "7.6",
            "Genre": "Drama, Mystery, Thriller", "Director": "Michelangelo Antonioni",
            "Actors": "David Hemmings, Vanessa Redgrave, Sarah Miles",
            "Plot": "A mod London photographer...", "Poster": "https://example.com/poster.jpg",
            "Response": "True"}"#,
    );
    assert!(check_omdb_response(body["Response"].as_str(), body["Error"].as_str()).is_ok());
    let field = |k: &str| body[k].as_str().unwrap_or_default().to_string();
    let movie = OmdbMovie {
        title: field("Title"),
        year: field("Year"),
        rated: field("Rated"),
        imdb_rating: field("imdbRating"),
        genre: field("Genre"),
        director: field("Director"),
        actors: field("Actors"),
        plot: field("Plot"),
        poster: field("Poster"),
        response: field("Response"),
    };
    assert_eq!(movie.title, "Blow-Up");
    assert_eq!(movie.year, "1966");
    assert_eq!(movie.imdb_rating, "7.6");
}

#[test]
fn parse_not_found_response() {
    let body = omdb_body(r#"{"Response": "False", "Error": "Movie not found!"}"#);
    let err = check_omdb_response(body["Response"].as_str(), body["Error"].as_str()).unwrap_err();
    assert!(matches!(err, OmdbError::NotFound(_)));
}

#[test]
fn omdb_api_key_missing_returns_error() {
    assert!(matches!(omdb_params("", "Blow-Up", None), Err(OmdbError::ApiKeyMissing)));
}

#[test]
fn tmdb_api_key_missing_returns_error() {
    assert!(matches!(lookup_params("", "Blow-Up", None), Err(TmdbError::ApiKeyMissing)));
}

#[test]
fn mod_api_key_missing_returns_error() {
    assert!(matches!(lookup_params("", "Blow-Up", None), Err(TmdbError::ApiKeyMissing)));
}

#[test]
fn keys_are_required_before_searching() {
    use_keys();
}

fn use_keys() {
    match blowup::subtitle_sources::require_os_key("") {
        Err(blowup::error::SubError::InvalidSrt(m)) => {
            assert_eq!(m, "OpenSubtitles API key not configured. Set it in Settings → OpenSubtitles.")
        }
        other => panic!("unexpected {:?}", other),
    }
    assert!(blowup::subtitle_sources::require_os_key("k").is_ok());
    assert_eq!(blowup::tmdb_search::require_tmdb_key(""), Err("TMDB API key not configured".to_string()));
    assert_eq!(blowup::tmdb_search::require_tmdb_key("k"), Ok(()));
}

#[test]
fn shifts_compose_and_zero_keeps() {
    let doc = "1\n00:00:05,000 --> 00:00:07,500\nHello\n\n2\n01:59:59,999 --> 02:00:00,001\nBye\n";
    let twice = apply_offset(&apply_offset(doc, 1_250).unwrap(), -3_000).unwrap();
    assert_eq!(twice, apply_offset(doc, -1_750).unwrap());
    assert_eq!(apply_offset(doc, 0).unwrap(), doc);
}

#[test]
fn large_offsets_fit_documents_without_timings() {
    assert!(offset_fits_in("no timings here", i64::MAX));
    assert_eq!(apply_offset("no timings here", i64::MAX).unwrap(), "no timings here");
    let doc = "00:00:01,000 --> 00:00:02,000\n";
    assert!(offset_fits_in(doc, i64::MAX - 2_000));
    assert!(!offset_fits_in(doc, i64::MAX - 1_999));
    assert!(offset_fits_in(doc, i64::MIN));
    assert_eq!(apply_offset(doc, i64::MIN).unwrap(), "00:00:00,000 --> 00:00:00,000\n");
}

#[test]
fn gzip_subtitles_are_unpacked() {
    let mut enc = flate2::write::GzEncoder::new(Vec::new(), flate2::Compression::default());
    enc.write_all(b"1\n00:00:01,000 --> 00:00:02,000\nHi\n").unwrap();
    let packed = enc.finish().unwrap();
    let body = blowup::opensubtitles_xmlrpc::subtitle_body(&packed).unwrap();
    assert_eq!(body, b"1\n00:00:01,000 --> 00:00:02,000\nHi\n".to_vec());
    assert_eq!(blowup::opensubtitles_xmlrpc::subtitle_body(b"plain").unwrap(), b"plain".to_vec());
    assert!(matches!(
        blowup::opensubtitles_xmlrpc::subtitle_body(&[0x1f, 0x8b, 0, 1, 2]),
        Err(blowup::error::SubError::InvalidSrt(_))
    ));
}

#[test]
fn default_library_directory_follows_home() {
    assert_eq!(blowup::config::root_dir_for_home(Some("/home/ana".to_string())), "/home/ana/Movies/blowup");
    assert_eq!(blowup::config::root_dir_for_home(Some("/home/ana/".to_string())), "/home/ana/Movies/blowup");
    assert_eq!(blowup::config::root_dir_for_home(None), "~/Movies/blowup");
    assert!(blowup::config::default_root_dir().ends_with("blowup"));
}

#[test]
fn importing_twice_adds_nothing() {
    let mut db = vec![1, 2];
    let ids = vec![2, 3, 4, 3];
    assert_eq!(blowup::export_rows::import_rows(&mut db, &ids), 2);
    assert_eq!(db, vec![1, 2, 3, 4]);
    assert_eq!(blowup::export_rows::import_rows(&mut db, &ids), 0);
    assert_eq!(db, vec![1, 2, 3, 4]);
    assert_eq!(blowup::export_rows::json_parse_failure("eof"), "JSON 解析失败: eof");
}
