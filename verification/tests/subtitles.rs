use blowup::opensubtitles_xmlrpc::{
    clean_query as legacy_clean_query, extract_xmlrpc_string, parse_xmlrpc_search_results,
    strip_session_from_url,
};
use blowup::shift::apply_offset;
use blowup::subtitle_search::{clean_query, to_opensubtitles_lang};
use blowup::subtitle_sources::{
    assrt_search_query, assrt_search_results, is_chinese, keep_best, next_provider,
    os_results_to_unified, pick_assrt_file, pick_os_file, plan_download, subtitle_extension,
    token_step, unescape_assrt_url, AssrtDetailEntry, AssrtFile, AssrtSubEntry, DownloadTarget,
    OsSearchResult, OsSubFile, Provider, SubtitleSearchResult, TokenStep,
};
use blowup::subtitle_streams::{
    extract_args, probe_args, stream_line, subtitle_streams, FfprobeStream, FfprobeTags,
    SubtitleStreamInfo,
};
use blowup::error::SubError;

#[test]
fn clean_query_strips_quality_tags() {
    let q = legacy_clean_query("Blow-Up.1966.1080p.BluRay.x264.AAC-YTS.MX");
    assert_eq!(q, "Blow Up 1966");
}

#[test]
fn clean_query_keeps_title_and_year() {
    let q = legacy_clean_query("The.Godfather.1972.1080p.BluRay");
    assert_eq!(q, "The Godfather 1972");
}

#[test]
fn lang_mapping_zh() {
    assert_eq!(to_opensubtitles_lang("zh"), "chi");
    assert_eq!(to_opensubtitles_lang("en"), "eng");
    assert_eq!(to_opensubtitles_lang("ja"), "jpn");
}

#[test]
fn extract_xmlrpc_token() {
    let xml = r#"<member><name>token</name><value><string>abc123</string></value></member>"#;
    assert_eq!(extract_xmlrpc_string(xml, "token"), Some("abc123".into()));
}

#[test]
fn strip_session_removes_sid_segment() {
    let url = "https://dl.opensubtitles.org/en/download/src-api/vrf-abc/sid-TOK,EN/filead/123.gz";
    let clean = strip_session_from_url(url);
    assert_eq!(
        clean,
        "https://dl.opensubtitles.org/en/download/src-api/vrf-abc/filead/123.gz"
    );
}

#[test]
fn strip_session_noop_when_no_sid() {
    let url = "https://dl.opensubtitles.org/en/download/src-api/vrf-abc/filead/123.gz";
    assert_eq!(strip_session_from_url(url), url);
}

#[test]
fn parse_xmlrpc_search_single_result() {
    let xml = r#"<member><name>SubFileName</name><value><string>Blow-Up.srt</string></value></member><member><name>SubDownloadLink</name><value><string>https://example.com/sub.gz</string></value></member>"#;
    let results = parse_xmlrpc_search_results(xml).unwrap();
    assert_eq!(results.len(), 1);
    assert_eq!(results[0].filename, "Blow-Up.srt");
}

#[test]
fn clean_query_strips_quality_and_year() {
    let q = clean_query("Blow-Up.1966.1080p.BluRay.x264.AAC-YTS.MX");
    assert_eq!(q, "Blow Up");
}

#[test]
fn clean_query_keeps_title_only() {
    let q = clean_query("The.Godfather.1972.1080p.BluRay");
    assert_eq!(q, "The Godfather");
}

#[test]
fn clean_query_persona() {
    let q = clean_query("Persona.1966.720p.BluRay.x264-[YTS.AM]");
    assert_eq!(q, "Persona");
}

#[test]
fn subtitle_offset_positive() {
    let srt = "1\n00:01:00,000 --> 00:01:05,000\nHello\n";
    let result = apply_offset(srt, 5000).unwrap();
    assert!(result.contains("00:01:05,000 --> 00:01:10,000"));
}

#[test]
fn subtitle_offset_negative() {
    let srt = "1\n00:01:00,000 --> 00:01:05,000\nHello\n";
    let result = apply_offset(srt, -10000).unwrap();
    assert!(result.contains("00:00:50,000 --> 00:00:55,000"));
}

#[test]
fn subtitle_clamp_at_zero() {
    let srt = "1\n00:00:01,000 --> 00:00:02,000\nHello\n";
    let result = apply_offset(srt, -5000).unwrap();
    assert!(result.contains("00:00:00,000 --> 00:00:00,000"));
}

#[test]
fn shift_offset_positive() {
    let srt = "1\n00:01:00,000 --> 00:01:05,000\nHello\n";
    let result = apply_offset(srt, 5000).unwrap();
    assert!(result.contains("00:01:05,000 --> 00:01:10,000"));
}

#[test]
fn shift_offset_negative() {
    let srt = "1\n00:01:00,000 --> 00:01:05,000\nHello\n";
    let result = apply_offset(srt, -10000).unwrap();
    assert!(result.contains("00:00:50,000 --> 00:00:55,000"));
}

#[test]
fn shift_clamp_at_zero() {
    let srt = "1\n00:00:01,000 --> 00:00:02,000\nHello\n";
    let result = apply_offset(srt, -5000).unwrap();
    assert!(result.contains("00:00:00,000 --> 00:00:00,000"));
}

#[test]
fn offset_keeps_other_text_and_undoes() {
    let srt = "1\n00:01:00,000 --> 00:01:05,000\nHello\n\n2\n00:02:00,500 --> 00:02:01,000\nBye\n";
    let there = apply_offset(srt, 1500).unwrap();
    assert_eq!(
        there,
        "1\n00:01:01,500 --> 00:01:06,500\nHello\n\n2\n00:02:02,000 --> 00:02:02,500\nBye\n"
    );
    let back = apply_offset(&there, -1500).unwrap();
    assert_eq!(back, srt);
}

fn os_result(release: Option<&str>, count: i64, files: Vec<(i64, &str)>) -> OsSearchResult {
    OsSearchResult {
        release: release.map(String::from),
        download_count: count,
        files: files
            .into_iter()
            .map(|(id, name)| OsSubFile { file_id: id, file_name: name.to_string() })
            .collect(),
    }
}

#[test]
fn opensubtitles_results_one_per_file() {
    let results = vec![
        os_result(Some("Blow-Up.1966.BluRay"), 120, vec![(11, "a.srt"), (12, "b.srt")]),
        os_result(None, 7, vec![(-3, "c.srt")]),
    ];
    let unified = os_results_to_unified(&results);
    assert_eq!(unified.len(), 3);
    assert_eq!(unified[0].source, "opensubtitles");
    assert_eq!(unified[0].title, "Blow-Up.1966.BluRay");
    assert_eq!(unified[1].download_id, "os:12");
    assert_eq!(unified[1].download_count, Some(120));
    assert_eq!(unified[2].title, "c.srt");
    assert_eq!(unified[2].download_id, "os:-3");
    assert_eq!(unified[2].language, None);
}

#[test]
fn assrt_results_titles_and_ids() {
    let subs = vec![
        AssrtSubEntry {
            id: 5,
            native_name: Some("放大".to_string()),
            videoname: Some("Blow-Up".to_string()),
            lang_desc: Some("简体".to_string()),
        },
        AssrtSubEntry { id: 6, native_name: None, videoname: Some("Blow-Up".to_string()), lang_desc: None },
        AssrtSubEntry { id: 7, native_name: None, videoname: None, lang_desc: None },
    ];
    let r = assrt_search_results(0, Some(subs)).unwrap();
    assert_eq!(r.len(), 3);
    assert_eq!(r[0].title, "放大");
    assert_eq!(r[0].language.as_deref(), Some("简体"));
    assert_eq!(r[1].title, "Blow-Up");
    assert_eq!(r[2].title, "#7");
    assert_eq!(r[2].download_id, "assrt:7");
    assert_eq!(r[2].source, "assrt");
    assert!(assrt_search_results(0, None).unwrap().is_empty());
    assert_eq!(assrt_search_results(101, None).unwrap_err(), "ASSRT 返回错误状态: 101");
}

#[test]
fn assrt_query_prefers_title_and_year() {
    assert_eq!(assrt_search_query("blow up", Some("Blow-Up"), Some(1966)), "Blow-Up 1966");
    assert_eq!(assrt_search_query("blow up", Some("Blow-Up"), None), "Blow-Up");
    assert_eq!(assrt_search_query("blow up", None, Some(1966)), "blow up");
}

#[test]
fn provider_order_depends_on_language() {
    assert!(is_chinese("zh-tw"));
    assert!(!is_chinese("en"));
    assert_eq!(next_provider("zh", "tok", "key", true, 0, 0), Some(Provider::Assrt));
    assert_eq!(next_provider("zh", "tok", "key", true, 1, 2), Some(Provider::OpenSubtitles));
    assert_eq!(next_provider("zh", "tok", "key", true, 1, 3), None);
    assert_eq!(next_provider("en", "tok", "key", true, 0, 0), Some(Provider::OpenSubtitles));
    assert_eq!(next_provider("en", "tok", "key", false, 0, 0), None);
    assert_eq!(next_provider("en", "tok", "", true, 1, 0), Some(Provider::Assrt));
    assert_eq!(next_provider("en", "", "key", true, 1, 0), None);
    assert_eq!(next_provider("en", "tok", "key", true, 2, 0), None);
}

fn result(id: &str) -> SubtitleSearchResult {
    SubtitleSearchResult {
        source: "assrt".to_string(),
        title: id.to_string(),
        language: None,
        download_count: None,
        download_id: id.to_string(),
    }
}

#[test]
fn keep_best_keeps_three() {
    let r = keep_best(vec![result("a"), result("b"), result("c"), result("d")]);
    assert_eq!(r.len(), 3);
    assert_eq!(r[2].download_id, "c");
    assert_eq!(keep_best(vec![result("a")]).len(), 1);
}

#[test]
fn download_ids_are_read() {
    match plan_download("os:42", "key", "") {
        Ok(DownloadTarget::OpenSubtitles(n)) => assert_eq!(n, 42),
        other => panic!("unexpected {:?}", other),
    }
    match plan_download("assrt:77", "", "tok") {
        Ok(DownloadTarget::Assrt(s)) => assert_eq!(s, "77"),
        other => panic!("unexpected {:?}", other),
    }
    assert_eq!(plan_download("os:4x", "key", "").unwrap_err(), "无效的 OpenSubtitles 文件 ID");
    assert_eq!(plan_download("os:42", "", "").unwrap_err(), "OpenSubtitles API key 未配置");
    assert_eq!(plan_download("assrt:1", "key", "").unwrap_err(), "ASSRT token 未配置");
    assert_eq!(plan_download("xyz:1", "key", "tok").unwrap_err(), "未知的下载来源: xyz:1");
}

fn file(url: &str, f: &str) -> AssrtFile {
    AssrtFile { url: url.to_string(), f: f.to_string() }
}

#[test]
fn assrt_file_choice() {
    let entry = AssrtDetailEntry {
        filelist: vec![file("u1", "readme.txt"), file("u2", "Film.ASS"), file("u3", "film.srt")],
        url: None,
        filename: None,
    };
    assert_eq!(
        pick_assrt_file(Some(vec![entry])).unwrap(),
        ("u2".to_string(), "Film.ASS".to_string())
    );
    let plain = AssrtDetailEntry { filelist: vec![file("u1", "a.txt")], url: None, filename: None };
    assert_eq!(pick_assrt_file(Some(vec![plain])).unwrap().0, "u1");
    let single = AssrtDetailEntry { filelist: vec![], url: Some("u9".to_string()), filename: None };
    assert_eq!(
        pick_assrt_file(Some(vec![single])).unwrap(),
        ("u9".to_string(), "subtitle.srt".to_string())
    );
    let none = AssrtDetailEntry { filelist: vec![], url: None, filename: None };
    assert_eq!(pick_assrt_file(Some(vec![none])).unwrap_err(), "ASSRT 未找到可下载的字幕文件");
    assert_eq!(pick_assrt_file(None).unwrap_err(), "ASSRT 详情中无字幕条目");
    assert_eq!(pick_assrt_file(Some(vec![])).unwrap_err(), "ASSRT 详情中无字幕条目");
}

#[test]
fn assrt_uses_last_detail_entry() {
    let first = AssrtDetailEntry { filelist: vec![file("first", "a.srt")], url: None, filename: None };
    let last = AssrtDetailEntry { filelist: vec![file("last", "b.srt")], url: None, filename: None };
    assert_eq!(pick_assrt_file(Some(vec![first, last])).unwrap().0, "last");
}

#[test]
fn assrt_links_are_unescaped() {
    assert_eq!(
        unescape_assrt_url("https://x/a%26amp%3Bb?x=1&amp;y=2"),
        "https://x/a%26b?x=1&y=2"
    );
    assert_eq!(unescape_assrt_url("p%26amp;q"), "p%26q");
    assert_eq!(unescape_assrt_url("plain"), "plain");
}

#[test]
fn opensubtitles_file_choice() {
    let results = vec![os_result(Some("r"), 1, vec![(9, "a.srt"), (10, "b.srt")])];
    assert_eq!(pick_os_file(&results).unwrap(), 9);
    assert!(matches!(pick_os_file(&vec![]), Err(SubError::NoSubtitleFound)));
    assert!(matches!(
        pick_os_file(&vec![os_result(None, 1, vec![])]),
        Err(SubError::NoSubtitleFound)
    ));
}

#[test]
fn login_token_choice() {
    assert!(matches!(token_step("", "pw", None), TokenStep::Anonymous));
    assert!(matches!(token_step("me", "pw", None), TokenStep::Login));
    match token_step("me", "pw", Some(("tok".to_string(), 60))) {
        TokenStep::Cached(t) => assert_eq!(t, "tok"),
        _ => panic!("expected the cached token"),
    }
    assert!(matches!(token_step("me", "pw", Some(("tok".to_string(), 82800))), TokenStep::Login));
    assert_eq!(subtitle_extension("zh"), "zh.srt");
}

#[test]
fn subtitle_streams_are_reported() {
    let streams = vec![
        FfprobeStream {
            index: 2,
            codec_type: "subtitle".to_string(),
            codec_name: "subrip".to_string(),
            start_time: "0.000".to_string(),
            duration_ts: 5000,
            tags: Some(FfprobeTags { language: Some("eng".to_string()), title: None }),
        },
        FfprobeStream {
            index: 3,
            codec_type: "subtitle".to_string(),
            codec_name: "ass".to_string(),
            start_time: "0.000".to_string(),
            duration_ts: 10,
            tags: None,
        },
    ];
    let infos = subtitle_streams(&streams);
    assert_eq!(infos.len(), 2);
    assert_eq!(infos[0].language.as_deref(), Some("eng"));
    assert_eq!(infos[1].language, None);
    assert_eq!(
        stream_line(false, &infos[0]),
        "Index(2) Codec(subrip) Duration(5000ms) Language(eng) Title(N/A)"
    );
    let info = SubtitleStreamInfo {
        index: 3,
        codec_name: "ass".to_string(),
        duration: 10,
        language: None,
        title: Some("Forced".to_string()),
    };
    assert_eq!(
        stream_line(true, &info),
        "Index(3) Codec Name(ass) Duration(10ms) Language(N/A) Title(Forced)"
    );
}

#[test]
fn ffmpeg_arguments() {
    assert_eq!(
        probe_args("/m/a.mkv"),
        vec!["-v", "quiet", "-print_format", "json", "-show_streams", "-select_streams", "s", "--", "/m/a.mkv"]
    );
    assert_eq!(
        extract_args("/m/a.mkv", "/m/a.srt", None),
        vec!["-i", "/m/a.mkv", "-map", "0:s:0", "-c", "copy", "/m/a.srt"]
    );
    assert_eq!(extract_args("/m/a.mkv", "/m/a.srt", Some(2))[3], "0:s:2");
}
