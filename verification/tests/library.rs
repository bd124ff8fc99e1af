use blowup::library_index::{
    is_listed_file_name, is_video_file, recovered_entry, EntryMetadata, FileMediaInfo, IndexEntry,
    LibraryIndex,
};
use blowup::credits::{enrich_start, EnrichStart};
use blowup::media::cached_media_info;
use blowup::tracker::parse_trackers;

fn sample_entry(tmdb_id: u64, title: &str, director: &str) -> IndexEntry {
    IndexEntry {
        tmdb_id,
        title: title.to_string(),
        director: director.to_string(),
        director_display: director.to_string(),
        year: Some(1966),
        genres: vec!["Drama".to_string()],
        path: format!("{}/{}", director, tmdb_id),
        files: Vec::new(),
        added_at: "2026-01-01T00:00:00Z".to_string(),
        poster_url: None,
        overview: None,
        rating_bits: None,
        credits: Vec::new(),
        original_title: None,
        media_info: Vec::new(),
    }
}

fn make_index() -> LibraryIndex {
    LibraryIndex::new("/library".to_string())
}

#[test]
fn add_and_get_entry() {
    let mut idx = make_index();
    idx.add_entry(sample_entry(1052, "Blow-Up", "Michelangelo Antonioni"));
    let entry = idx.get_entry(1052).unwrap();
    assert_eq!(entry.title, "Blow-Up");
}

#[test]
fn list_by_director_groups() {
    let mut idx = make_index();
    idx.add_entry(sample_entry(1, "Film A", "Director X"));
    idx.add_entry(sample_entry(2, "Film B", "Director X"));
    idx.add_entry(sample_entry(3, "Film C", "Director Y"));
    let map = idx.list_by_director();
    let x = map.iter().find(|(d, _)| d == "Director X").unwrap();
    let y = map.iter().find(|(d, _)| d == "Director Y").unwrap();
    assert_eq!(x.1.len(), 2);
    assert_eq!(y.1.len(), 1);
}

#[test]
fn search_by_title() {
    let mut idx = make_index();
    idx.add_entry(sample_entry(1, "Blow-Up", "Antonioni"));
    idx.add_entry(sample_entry(2, "Persona", "Bergman"));
    let results = idx.search(Some("blow"), None, None, None);
    assert_eq!(results.len(), 1);
    assert_eq!(results[0].tmdb_id, 1);
}

#[test]
fn search_by_genre() {
    let mut idx = make_index();
    idx.add_entry(sample_entry(1, "Film", "Dir"));
    let results = idx.search(None, None, None, Some("Drama"));
    assert_eq!(results.len(), 1);
    let results = idx.search(None, None, None, Some("Comedy"));
    assert!(results.is_empty());
}

#[test]
fn remove_entry() {
    let mut idx = make_index();
    idx.add_entry(sample_entry(1, "Film", "Dir"));
    idx.remove_entry(1);
    assert!(idx.get_entry(1).is_none());
}

#[test]
fn adding_an_id_again_replaces_it() {
    let mut idx = make_index();
    idx.add_entry(sample_entry(1, "Old", "Dir"));
    idx.add_entry(sample_entry(2, "Other", "Dir"));
    idx.add_entry(sample_entry(1, "New", "Dir"));
    assert_eq!(idx.list_entries().len(), 2);
    assert_eq!(idx.get_entry(1).unwrap().title, "New");
    assert_eq!(idx.get_entry(2).unwrap().title, "Other");
    assert_eq!(idx.list_entries()[1].tmdb_id, 1);
    idx.remove_entry(3);
    assert_eq!(idx.list_entries().len(), 2);
}

#[test]
fn directors_are_listed_in_order() {
    let mut idx = make_index();
    idx.add_entry(sample_entry(1, "A", "Tarkovsky"));
    idx.add_entry(sample_entry(2, "B", "Bergman"));
    idx.add_entry(sample_entry(3, "C", "Tarkovsky"));
    idx.add_entry(sample_entry(4, "D", "Antonioni"));
    let groups = idx.list_by_director();
    let names: Vec<&str> = groups.iter().map(|(d, _)| d.as_str()).collect();
    assert_eq!(names, vec!["Antonioni", "Bergman", "Tarkovsky"]);
    let ids: Vec<u64> = groups[2].1.iter().map(|e| e.tmdb_id).collect();
    assert_eq!(ids, vec![1, 3]);
}

#[test]
fn search_by_year_and_director() {
    let mut idx = make_index();
    let mut a = sample_entry(1, "Stalker", "Andrei Tarkovsky");
    a.year = Some(1979);
    let mut b = sample_entry(2, "Persona", "Ingmar Bergman");
    b.year = None;
    idx.add_entry(a);
    idx.add_entry(b);
    assert_eq!(idx.search(Some("TARKOV"), None, None, None).len(), 1);
    assert_eq!(idx.search(None, Some(1970), Some(1980), None).len(), 1);
    assert_eq!(idx.search(None, Some(1980), None, None).len(), 0);
    assert_eq!(idx.search(None, None, None, Some("drama")).len(), 2);
}

#[test]
fn metadata_updates_the_entry() {
    let mut idx = make_index();
    idx.add_entry(sample_entry(7, "Unknown (7)", "Dir"));
    let meta = EntryMetadata {
        title: Some("Blow-Up".to_string()),
        year: None,
        genres: Some(vec!["Mystery".to_string()]),
        poster_url: Some("/p.jpg".to_string()),
        overview: Some("A photographer".to_string()),
        rating_bits: Some(7.2f64.to_bits()),
        credits: vec![("导演".to_string(), vec!["Antonioni".to_string()])],
        original_title: None,
    };
    let updated = idx.update_entry_metadata(7, meta).unwrap();
    assert_eq!(updated.title, "Blow-Up");
    assert_eq!(updated.poster_url.as_deref(), Some("/p.jpg"));
    let e = idx.get_entry(7).unwrap();
    assert_eq!(e.title, "Blow-Up");
    assert_eq!(e.year, Some(1966));
    assert_eq!(e.genres, vec!["Mystery".to_string()]);
    assert_eq!(e.rating_bits.map(f64::from_bits), Some(7.2));
    let missing = EntryMetadata {
        title: None,
        year: None,
        genres: None,
        poster_url: None,
        overview: None,
        rating_bits: None,
        credits: Vec::new(),
        original_title: None,
    };
    assert!(idx.update_entry_metadata(8, missing).is_none());
}

fn media(size: i64) -> FileMediaInfo {
    FileMediaInfo {
        file_size: Some(size),
        duration_secs_bits: Some(90.5f64.to_bits()),
        format_name: Some("matroska".to_string()),
        bit_rate: None,
        streams: Vec::new(),
    }
}

#[test]
fn media_info_is_cached_per_file() {
    let mut idx = make_index();
    idx.add_entry(sample_entry(5, "Film", "Dir"));
    assert!(cached_media_info(&idx, 5, "a.mkv").is_none());
    assert!(idx.set_file_media_info(5, "a.mkv", media(10)));
    assert!(idx.set_file_media_info(5, "b.mkv", media(20)));
    assert!(idx.set_file_media_info(5, "a.mkv", media(30)));
    assert_eq!(cached_media_info(&idx, 5, "a.mkv").unwrap().file_size, Some(30));
    assert_eq!(cached_media_info(&idx, 5, "b.mkv").unwrap().file_size, Some(20));
    assert_eq!(idx.get_entry(5).unwrap().media_info.len(), 2);
    assert!(!idx.set_file_media_info(6, "a.mkv", media(1)));
}

#[test]
fn file_lists_are_replaced() {
    let mut idx = make_index();
    idx.add_entry(sample_entry(1, "Film", "Dir"));
    idx.update_files(1, vec!["video.mp4".to_string(), "sub.srt".to_string()]);
    let entry = idx.get_entry(1).unwrap();
    assert_eq!(entry.files.len(), 2);
    assert!(entry.files.contains(&"video.mp4".to_string()));
}

#[test]
fn only_media_files_are_listed() {
    assert!(is_listed_file_name("video.mp4"));
    assert!(is_listed_file_name("sub.srt"));
    assert!(is_listed_file_name("Movie.MKV"));
    assert!(is_listed_file_name("track.flac"));
    assert!(!is_listed_file_name("readme.txt"));
    assert!(!is_listed_file_name(".blowup_overlay_x.ass"));
    assert!(!is_listed_file_name(".mkv"));
    assert!(!is_listed_file_name("noext"));
    assert!(is_video_file("a.b.WebM"));
    assert!(!is_video_file("a.srt"));
}

#[test]
fn rebuilt_entries_come_from_directories() {
    let e = recovered_entry("Some Director", "Some Director".to_string(), "999", vec!["movie.mkv".to_string()], "now".to_string()).unwrap();
    assert_eq!(e.tmdb_id, 999);
    assert_eq!(e.title, "Unknown (999)");
    assert_eq!(e.director_display, "Some Director");
    assert_eq!(e.path, "Some Director/999");
    assert!(e.files.contains(&"movie.mkv".to_string()));
    assert!(recovered_entry("Dir", "Dir".to_string(), "notes", vec![], "now".to_string()).is_none());
    let mut idx = make_index();
    idx.add_entry(sample_entry(1, "Old", "Dir"));
    idx.rebuild_with(vec![e]);
    assert_eq!(idx.version, 1);
    assert_eq!(idx.get_entry(999).unwrap().director_display, "Some Director");
    assert!(idx.get_entry(1).is_none());
}

#[test]
fn load_trackers_parses_content() {
    let content = "udp://tracker1.com\nudp://tracker2.com\n\n";
    let trackers: Vec<String> = parse_trackers(content);
    assert_eq!(trackers.len(), 2);
    assert_eq!(trackers[0], "udp://tracker1.com");
}

#[test]
fn tracker_lines_drop_blanks_and_carriage_returns() {
    let trackers = parse_trackers("a\r\n   \r\nb\n\tc\r");
    assert_eq!(trackers, vec!["a".to_string(), "b".to_string(), "\tc\r".to_string()]);
    assert!(parse_trackers("").is_empty());
    assert!(parse_trackers("\n\n").is_empty());
}

#[test]
fn video_paths_go_by_their_file_name() {
    assert!(is_video_file("a/Film.MKV"));
    assert!(is_video_file("/movies/x.y/Blow-Up.1966.mp4"));
    assert!(is_video_file("a/b.mkv/"));
    assert!(is_video_file("a/b.mkv/."));
    assert!(!is_video_file("dir/.mkv"));
    assert!(!is_video_file("dir.mkv/readme"));
    assert!(!is_video_file("sub.srt"));
    assert!(!is_video_file("README"));
    assert!(!is_video_file("a/.."));
    assert!(!is_video_file(""));
}

#[test]
fn enrichment_starts_from_the_index() {
    let mut idx = make_index();
    idx.add_entry(sample_entry(1, "Bare", "Dir"));
    let mut done = sample_entry(2, "Enriched", "Dir");
    done.poster_url = Some("/poster.jpg".to_string());
    idx.add_entry(done);
    let missing = enrich_start(&idx, 9, None);
    assert!(matches!(missing, EnrichStart::NotInIndex));
    assert_eq!(missing.error_message(), Some("索引中未找到该电影".to_string()));
    assert!(matches!(enrich_start(&idx, 1, None), EnrichStart::Fetch(e) if e.title == "Bare"));
    assert!(matches!(enrich_start(&idx, 2, None), EnrichStart::Done(e) if e.title == "Enriched"));
    assert!(matches!(enrich_start(&idx, 2, Some(false)), EnrichStart::Done(_)));
    assert!(matches!(enrich_start(&idx, 2, Some(true)), EnrichStart::Fetch(_)));
    assert_eq!(enrich_start(&idx, 1, None).error_message(), None);
}
