//! Subtitle providers (OpenSubtitles and ASSRT): turning their answers into
//! one list of results, choosing whom to ask, and reading download ids.
use vstd::prelude::*;

use crate::error::SubError;
use crate::search::{clone_opt, opt_view};
use crate::text::{
    chars_eq_str, chars_of, ends_with, ends_with_exec, occurs_at, occurs_at_exec, parse_i64,
    parsed_i64, push_all, push_signed, push_str, signed_decimal, string_of, to_lowercase,
    unicode_lower,
};

verus! {

/// One subtitle found by a provider.
#[derive(Debug)]
pub struct SubtitleSearchResult {
    /// `opensubtitles` or `assrt`.
    pub source: String,
    pub title: String,
    pub language: Option<String>,
    pub download_count: Option<i64>,
    /// `os:{file id}` or `assrt:{subtitle id}`.
    pub download_id: String,
}

/// The values of a [`SubtitleSearchResult`].
pub struct ResultView {
    pub source: Seq<char>,
    pub title: Seq<char>,
    pub language: Option<Seq<char>>,
    pub download_count: Option<i64>,
    pub download_id: Seq<char>,
}

impl View for SubtitleSearchResult {
    type V = ResultView;

    open spec fn view(&self) -> ResultView {
        ResultView {
            source: self.source@,
            title: self.title@,
            language: opt_view(self.language),
            download_count: self.download_count,
            download_id: self.download_id@,
        }
    }
}

/// The views of results.
pub open spec fn result_views(s: Seq<SubtitleSearchResult>) -> Seq<ResultView> {
    s.map_values(|r: SubtitleSearchResult| r@)
}

/// A file of an OpenSubtitles result.
#[derive(Debug)]
pub struct OsSubFile {
    pub file_id: i64,
    pub file_name: String,
}

/// An OpenSubtitles search result.
#[derive(Debug)]
pub struct OsSearchResult {
    pub release: Option<String>,
    pub download_count: i64,
    pub files: Vec<OsSubFile>,
}

/// The result listed for a file of an OpenSubtitles result: titled by the
/// release (the file name when there is none), with the download count and
/// the id `os:{file id}`.
pub open spec fn os_view(r: OsSearchResult, f: OsSubFile) -> ResultView {
    ResultView {
        source: "opensubtitles"@,
        title: match r.release {
            Some(t) => t@,
            None => f.file_name@,
        },
        language: None,
        download_count: Some(r.download_count),
        download_id: "os:"@ + signed_decimal(f.file_id as int),
    }
}

/// The results listed for OpenSubtitles results: one per file, result by
/// result.
pub open spec fn os_unified(rs: Seq<OsSearchResult>) -> Seq<ResultView>
    decreases rs.len(),
{
    if rs.len() == 0 {
        seq![]
    } else {
        let last = rs.last();
        os_unified(rs.drop_last()) + last.files@.map_values(|f: OsSubFile| os_view(last, f))
    }
}

/// A string holding the text of `s`.
fn copy_string(s: &String) -> (r: String)
    ensures
        r@ == s@,
{
    string_of(&chars_of(s.as_str()))
}

/// A string holding `lit` followed by the decimal numeral of `n`.
fn tagged_id(lit: &str, n: i64) -> (r: String)
    ensures
        r@ == lit@ + signed_decimal(n as int),
{
    let mut v: Vec<char> = Vec::new();
    push_str(&mut v, lit);
    push_signed(&mut v, n);
    string_of(&v)
}

/// The OpenSubtitles results as one list.
pub fn os_results_to_unified(results: &Vec<OsSearchResult>) -> (r: Vec<SubtitleSearchResult>)
    ensures
        result_views(r@) == os_unified(results@),
{
    let mut out: Vec<SubtitleSearchResult> = Vec::new();
    let mut k: usize = 0;
    while k < results.len()
        invariant
            k <= results@.len(),
            result_views(out@) == os_unified(results@.take(k as int)),
        decreases results@.len() - k,
    {
        let r = &results[k];
        let ghost base = out@;
        let mut j: usize = 0;
        while j < r.files.len()
            invariant
                j <= r.files@.len(),
                out@.len() == base.len() + j,
                forall|m: int| 0 <= m < base.len() ==> out@[m] == base[m],
                forall|m: int| 0 <= m < j ==> (#[trigger] out@[base.len() + m])@ == os_view(*r, r.files@[m]),
            decreases r.files@.len() - j,
        {
            let f = &r.files[j];
            let title = match &r.release {
                Some(t) => copy_string(t),
                None => copy_string(&f.file_name),
            };
            let item = SubtitleSearchResult {
                source: string_of(&chars_of("opensubtitles")),
                title,
                language: None,
                download_count: Some(r.download_count),
                download_id: tagged_id("os:", f.file_id),
            };
            out.push(item);
            j += 1;
        }
        assert(results@.take(k + 1).drop_last() =~= results@.take(k as int));
        assert(results@.take(k + 1).last() == *r);
        assert(result_views(out@) =~= os_unified(results@.take(k as int)) + r.files@.map_values(
            |f: OsSubFile| os_view(*r, f),
        )) by {
            assert forall|m: int| 0 <= m < out@.len() implies #[trigger] result_views(out@)[m] == (
            os_unified(results@.take(k as int)) + r.files@.map_values(|f: OsSubFile| os_view(*r, f)))[m] by {
                if m < base.len() {
                    assert(out@[m] == base[m]);
                    assert(result_views(base)[m] == base[m]@);
                } else {
                    assert(out@[base.len() + (m - base.len())] == out@[m]);
                }
            }
        }
        k += 1;
    }
    assert(results@.take(k as int) =~= results@);
    out
}

/// A subtitle of an ASSRT search.
#[derive(Debug)]
pub struct AssrtSubEntry {
    pub id: i64,
    pub native_name: Option<String>,
    pub videoname: Option<String>,
    /// The description of its language.
    pub lang_desc: Option<String>,
}

/// The result listed for an ASSRT subtitle: titled by its native name, else
/// its video name, else `#{id}`; with the id `assrt:{id}`.
pub open spec fn assrt_view(e: AssrtSubEntry) -> ResultView {
    ResultView {
        source: "assrt"@,
        title: match e.native_name {
            Some(t) => t@,
            None => match e.videoname {
                Some(t) => t@,
                None => "#"@ + signed_decimal(e.id as int),
            },
        },
        language: opt_view(e.lang_desc),
        download_count: None,
        download_id: "assrt:"@ + signed_decimal(e.id as int),
    }
}

/// The answer of an ASSRT search: an error for a status other than 0
/// (`ASSRT 返回错误状态: {status}`), else one result per subtitle (none when
/// the answer lists none).
pub fn assrt_search_results(status: i32, subs: Option<Vec<AssrtSubEntry>>) -> (r: Result<Vec<SubtitleSearchResult>, String>)
    ensures
        status != 0 ==> (r matches Err(m) && m@ == "ASSRT 返回错误状态: "@ + signed_decimal(status as int)),
        status == 0 ==> (r matches Ok(v) && result_views(v@) == match subs {
            Some(s) => s@.map_values(|e: AssrtSubEntry| assrt_view(e)),
            None => Seq::<ResultView>::empty(),
        }),
{
    if status != 0 {
        return Err(tagged_id("ASSRT 返回错误状态: ", status as i64));
    }
    let subs = match subs {
        Some(s) => s,
        None => {
            let v: Vec<SubtitleSearchResult> = Vec::new();
            assert(result_views(v@) =~= Seq::<ResultView>::empty());
            return Ok(v);
        },
    };
    let mut out: Vec<SubtitleSearchResult> = Vec::new();
    let mut k: usize = 0;
    while k < subs.len()
        invariant
            k <= subs@.len(),
            result_views(out@) == subs@.take(k as int).map_values(|e: AssrtSubEntry| assrt_view(e)),
        decreases subs@.len() - k,
    {
        let e = &subs[k];
        let title = match &e.native_name {
            Some(t) => copy_string(t),
            None => match &e.videoname {
                Some(t) => copy_string(t),
                None => tagged_id("#", e.id),
            },
        };
        let item = SubtitleSearchResult {
            source: string_of(&chars_of("assrt")),
            title,
            language: clone_opt(&e.lang_desc),
            download_count: None,
            download_id: tagged_id("assrt:", e.id),
        };
        let ghost before = out@;
        out.push(item);
        assert(result_views(out@) =~= result_views(before).push(assrt_view(*e)));
        assert(subs@.take(k + 1).map_values(|e: AssrtSubEntry| assrt_view(e)) =~= subs@.take(k as int).map_values(
            |e: AssrtSubEntry| assrt_view(e),
        ).push(assrt_view(subs@[k as int])));
        k += 1;
    }
    assert(subs@.take(k as int) =~= subs@);
    Ok(out)
}

/// What ASSRT is asked: `{title} {year}` when both are known, the title
/// alone without a year, else the query made from the file name.
pub open spec fn assrt_query(query: Seq<char>, title: Option<Seq<char>>, year: Option<u32>) -> Seq<char> {
    match title {
        Some(t) => match year {
            Some(y) => t + " "@ + signed_decimal(y as int),
            None => t,
        },
        None => query,
    }
}

/// The text ASSRT is searched for.
pub fn assrt_search_query(query: &str, title: Option<&str>, year: Option<u32>) -> (r: String)
    ensures
        r@ == assrt_query(
            query@,
            match title {
                Some(t) => Some(t@),
                None => None,
            },
            year,
        ),
{
    let mut v: Vec<char> = Vec::new();
    match title {
        Some(t) => {
            push_str(&mut v, t);
            match year {
                Some(y) => {
                    push_str(&mut v, " ");
                    push_signed(&mut v, y as i64);
                },
                None => {},
            }
        },
        None => {
            push_str(&mut v, query);
        },
    }
    string_of(&v)
}

/// The languages searched on ASSRT first.
pub open spec fn chinese(lang: Seq<char>) -> bool {
    lang == "zh"@ || lang == "zh-cn"@ || lang == "zh-tw"@ || lang == "chi"@ || lang == "zho"@
}

/// Whether subtitles in `lang` are searched on ASSRT first.
pub fn is_chinese(lang: &str) -> (r: bool)
    ensures
        r == chinese(lang@),
{
    let c = chars_of(lang);
    chars_eq_str(&c, "zh") || chars_eq_str(&c, "zh-cn") || chars_eq_str(&c, "zh-tw") || chars_eq_str(&c, "chi")
        || chars_eq_str(&c, "zho")
}

/// A subtitle provider.
#[derive(Debug, Clone, Copy, PartialEq, Eq)]
pub enum Provider {
    Assrt,
    OpenSubtitles,
}

/// Whom to ask at step `step` of a search: first ASSRT for Chinese and
/// OpenSubtitles otherwise, when it is configured; then the other one, when
/// it is configured and fewer than three results were found.  Nobody after
/// that.
pub open spec fn planned(lang: Seq<char>, assrt_ready: bool, os_ready: bool, step: u32, found: usize) -> Option<Provider> {
    let first = if chinese(lang) { Provider::Assrt } else { Provider::OpenSubtitles };
    let second = if chinese(lang) { Provider::OpenSubtitles } else { Provider::Assrt };
    let ready = |p: Provider| match p {
        Provider::Assrt => assrt_ready,
        Provider::OpenSubtitles => os_ready,
    };
    if step == 0 {
        if ready(first) { Some(first) } else { None }
    } else if step == 1 {
        if found < 3 && ready(second) { Some(second) } else { None }
    } else {
        None
    }
}

/// Whom a subtitle search asks next.  `assrt_token` and `os_api_key` are
/// the configured credentials (a provider without one is skipped);
/// `os_client_ok` says whether an OpenSubtitles client could be made.
pub fn next_provider(
    lang: &str,
    assrt_token: &str,
    os_api_key: &str,
    os_client_ok: bool,
    step: u32,
    found: usize,
) -> (r: Option<Provider>)
    ensures
        r == planned(lang@, assrt_token@.len() > 0, os_api_key@.len() > 0 && os_client_ok, step, found),
{
    let zh = is_chinese(lang);
    let assrt_ready = assrt_token.unicode_len() > 0;
    let os_ready = os_api_key.unicode_len() > 0 && os_client_ok;
    let first = if zh { Provider::Assrt } else { Provider::OpenSubtitles };
    let second = if zh { Provider::OpenSubtitles } else { Provider::Assrt };
    let first_ready = match first {
        Provider::Assrt => assrt_ready,
        Provider::OpenSubtitles => os_ready,
    };
    let second_ready = match second {
        Provider::Assrt => assrt_ready,
        Provider::OpenSubtitles => os_ready,
    };
    if step == 0 {
        if first_ready { Some(first) } else { None }
    } else if step == 1 {
        if found < 3 && second_ready { Some(second) } else { None }
    } else {
        None
    }
}

/// The results shown: the first three.
pub fn keep_best(results: Vec<SubtitleSearchResult>) -> (r: Vec<SubtitleSearchResult>)
    ensures
        r@ == if results@.len() <= 3 { results@ } else { results@.take(3) },
{
    let mut results = results;
    results.truncate(3);
    results
}


/// `s` starts with `p`.
pub open spec fn starts_with(s: Seq<char>, p: Seq<char>) -> bool {
    s.len() >= p.len() && s.take(p.len() as int) == p
}

/// Where a subtitle is downloaded from.
#[derive(Debug)]
pub enum DownloadTarget {
    /// An OpenSubtitles file id.
    OpenSubtitles(i64),
    /// An ASSRT subtitle id.
    Assrt(String),
}

/// The values of a [`DownloadTarget`].
pub enum TargetView {
    OpenSubtitles(i64),
    Assrt(Seq<char>),
}

/// What a download id asks for: `os:{file id}` needs an OpenSubtitles API
/// key, `assrt:{id}` an ASSRT token; anything else is unknown.
pub open spec fn download_plan(id: Seq<char>, os_key_set: bool, assrt_set: bool) -> Result<TargetView, Seq<char>> {
    if starts_with(id, "os:"@) {
        match parsed_i64(id.skip(3)) {
            None => Err("无效的 OpenSubtitles 文件 ID"@),
            Some(n) => if os_key_set {
                Ok(TargetView::OpenSubtitles(n))
            } else {
                Err("OpenSubtitles API key 未配置"@)
            },
        }
    } else if starts_with(id, "assrt:"@) {
        if assrt_set {
            Ok(TargetView::Assrt(id.skip(6)))
        } else {
            Err("ASSRT token 未配置"@)
        }
    } else {
        Err("未知的下载来源: "@ + id)
    }
}

/// The values of a download plan.
pub open spec fn plan_view(r: Result<DownloadTarget, String>) -> Result<TargetView, Seq<char>> {
    match r {
        Ok(DownloadTarget::OpenSubtitles(n)) => Ok(TargetView::OpenSubtitles(n)),
        Ok(DownloadTarget::Assrt(s)) => Ok(TargetView::Assrt(s@)),
        Err(m) => Err(m@),
    }
}

/// `s` from position `k` on.
fn chars_from(s: &Vec<char>, k: usize) -> (r: Vec<char>)
    requires
        k <= s@.len(),
    ensures
        r@ == s@.skip(k as int),
{
    let mut out: Vec<char> = Vec::new();
    let mut i = k;
    while i < s.len()
        invariant
            k <= i <= s@.len(),
            out@ == s@.subrange(k as int, i as int),
        decreases s@.len() - i,
    {
        out.push(s[i]);
        assert(s@.subrange(k as int, i + 1) =~= s@.subrange(k as int, i as int).push(s@[i as int]));
        i += 1;
    }
    assert(out@ =~= s@.skip(k as int));
    out
}

/// Reads a download id: where to download from, or why not.
pub fn plan_download(download_id: &str, os_api_key: &str, assrt_token: &str) -> (r: Result<DownloadTarget, String>)
    ensures
        plan_view(r) == download_plan(download_id@, os_api_key@.len() > 0, assrt_token@.len() > 0),
{
    let c = chars_of(download_id);
    let os = chars_of("os:");
    let assrt = chars_of("assrt:");
    proof {
        reveal_strlit("os:");
        reveal_strlit("assrt:");
    }
    if occurs_at_exec(&c, 0, &os) {
        assert(starts_with(c@, "os:"@));
        let rest = string_of(&chars_from(&c, 3));
        match parse_i64(rest.as_str()) {
            None => Err(string_of(&chars_of("无效的 OpenSubtitles 文件 ID"))),
            Some(n) => {
                if os_api_key.unicode_len() > 0 {
                    Ok(DownloadTarget::OpenSubtitles(n))
                } else {
                    Err(string_of(&chars_of("OpenSubtitles API key 未配置")))
                }
            },
        }
    } else if occurs_at_exec(&c, 0, &assrt) {
        assert(!starts_with(c@, "os:"@));
        assert(starts_with(c@, "assrt:"@));
        if assrt_token.unicode_len() > 0 {
            Ok(DownloadTarget::Assrt(string_of(&chars_from(&c, 6))))
        } else {
            Err(string_of(&chars_of("ASSRT token 未配置")))
        }
    } else {
        assert(!starts_with(c@, "os:"@));
        assert(!starts_with(c@, "assrt:"@));
        let mut m: Vec<char> = Vec::new();
        push_str(&mut m, "未知的下载来源: ");
        push_str(&mut m, download_id);
        Err(string_of(&m))
    }
}

/// A file of an ASSRT subtitle.
#[derive(Debug)]
pub struct AssrtFile {
    pub url: String,
    /// The file name.
    pub f: String,
}

/// The details of an ASSRT subtitle.
#[derive(Debug)]
pub struct AssrtDetailEntry {
    pub filelist: Vec<AssrtFile>,
    /// Where a single-file subtitle is, when it has no file list.
    pub url: Option<String>,
    pub filename: Option<String>,
}

/// A file name that, lower-cased, ends in `.srt` or `.ass`.
pub open spec fn is_text_subtitle(name: Seq<char>) -> bool {
    ends_with(unicode_lower(name), ".srt"@) || ends_with(unicode_lower(name), ".ass"@)
}

/// The position of the first text subtitle in `fl[i..]`.
pub open spec fn first_text_subtitle(fl: Seq<AssrtFile>, i: int) -> Option<int>
    decreases fl.len() - i,
{
    if i < 0 || i >= fl.len() {
        None
    } else if is_text_subtitle(fl[i].f@) {
        Some(i)
    } else {
        first_text_subtitle(fl, i + 1)
    }
}

/// The file downloaded for an ASSRT subtitle, as (link, file name): the
/// details' last entry is used; from its file list the first `.srt` or
/// `.ass` file, else the first file; without a list, the entry's own link
/// and file name (`subtitle.srt` when it has none).
pub open spec fn assrt_pick(subs: Option<Seq<AssrtDetailEntry>>) -> Result<(Seq<char>, Seq<char>), Seq<char>> {
    match subs {
        None => Err("ASSRT 详情中无字幕条目"@),
        Some(s) => if s.len() == 0 {
            Err("ASSRT 详情中无字幕条目"@)
        } else {
            let e = s.last();
            if e.filelist@.len() > 0 {
                let k = match first_text_subtitle(e.filelist@, 0) {
                    Some(k) => k,
                    None => 0,
                };
                Ok((e.filelist@[k].url@, e.filelist@[k].f@))
            } else {
                match e.url {
                    Some(u) => Ok((
                        u@,
                        match e.filename {
                            Some(f) => f@,
                            None => "subtitle.srt"@,
                        },
                    )),
                    None => Err("ASSRT 未找到可下载的字幕文件"@),
                }
            }
        },
    }
}

/// Whether a file name is a text subtitle.
fn text_subtitle(name: &str) -> (r: bool)
    ensures
        r == is_text_subtitle(name@),
{
    let l = to_lowercase(name);
    let c = chars_of(l.as_str());
    ends_with_exec(&c, &chars_of(".srt")) || ends_with_exec(&c, &chars_of(".ass"))
}

/// Chooses the file to download for an ASSRT subtitle.
pub fn pick_assrt_file(subs: Option<Vec<AssrtDetailEntry>>) -> (r: Result<(String, String), String>)
    ensures
        match r {
            Ok((u, f)) => assrt_pick(
                match subs {
                    Some(s) => Some(s@),
                    None => None,
                },
            ) == Ok::<(Seq<char>, Seq<char>), Seq<char>>((u@, f@)),
            Err(m) => assrt_pick(
                match subs {
                    Some(s) => Some(s@),
                    None => None,
                },
            ) == Err::<(Seq<char>, Seq<char>), Seq<char>>(m@),
        },
{
    let s = match subs {
        Some(s) => s,
        None => {
            return Err(string_of(&chars_of("ASSRT 详情中无字幕条目")));
        },
    };
    if s.len() == 0 {
        return Err(string_of(&chars_of("ASSRT 详情中无字幕条目")));
    }
    let e = &s[s.len() - 1];
    assert(*e == s@.last());
    if e.filelist.len() > 0 {
        let mut k: usize = 0;
        while k < e.filelist.len() && !text_subtitle(e.filelist[k].f.as_str())
            invariant
                k <= e.filelist@.len(),
                first_text_subtitle(e.filelist@, 0) == first_text_subtitle(e.filelist@, k as int),
            decreases e.filelist@.len() - k,
        {
            k += 1;
        }
        let pick = if k < e.filelist.len() { k } else { 0 };
        let file = &e.filelist[pick];
        Ok((copy_string(&file.url), copy_string(&file.f)))
    } else {
        match &e.url {
            Some(u) => {
                let name = match &e.filename {
                    Some(f) => copy_string(f),
                    None => string_of(&chars_of("subtitle.srt")),
                };
                Ok((copy_string(u), name))
            },
            None => Err(string_of(&chars_of("ASSRT 未找到可下载的字幕文件"))),
        }
    }
}

/// `s` with every occurrence of `pat`, read left to right without overlap,
/// replaced by `rep` (`str::replace`).
pub open spec fn replaced(s: Seq<char>, pat: Seq<char>, rep: Seq<char>) -> Seq<char>
    decreases s.len(),
{
    if s.len() == 0 {
        seq![]
    } else if pat.len() > 0 && occurs_at(s, 0, pat) {
        rep + replaced(s.skip(pat.len() as int), pat, rep)
    } else {
        seq![s[0]] + replaced(s.skip(1), pat, rep)
    }
}

/// `str::replace` on characters.
fn replace_chars(s: &Vec<char>, pat: &Vec<char>, rep: &Vec<char>) -> (r: Vec<char>)
    requires
        pat@.len() > 0,
    ensures
        r@ == replaced(s@, pat@, rep@),
{
    let mut out: Vec<char> = Vec::new();
    let mut i: usize = 0;
    assert(s@.skip(0) =~= s@);
    assert(out@ + replaced(s@, pat@, rep@) =~= replaced(s@, pat@, rep@));
    while i < s.len()
        invariant
            i <= s@.len(),
            pat@.len() > 0,
            out@ + replaced(s@.skip(i as int), pat@, rep@) == replaced(s@, pat@, rep@),
        decreases s@.len() - i,
    {
        let ghost rest = s@.skip(i as int);
        if occurs_at_exec(s, i, pat) {
            assert(occurs_at(rest, 0, pat@)) by {
                assert(rest.subrange(0, pat@.len() as int) =~= s@.subrange(i as int, i + pat@.len()));
            }
            assert(rest.skip(pat@.len() as int) =~= s@.skip(i + pat@.len()));
            let ghost before = out@;
            push_all(&mut out, rep);
            assert(out@ + replaced(s@.skip(i + pat@.len()), pat@, rep@) =~= before + replaced(rest, pat@, rep@));
            i += pat.len();
        } else {
            assert(!occurs_at(rest, 0, pat@)) by {
                if occurs_at(rest, 0, pat@) {
                    assert(rest.subrange(0, pat@.len() as int) =~= s@.subrange(i as int, i + pat@.len()));
                }
            }
            assert(rest.skip(1) =~= s@.skip(i + 1));
            assert(rest[0] == s@[i as int]);
            let ghost before = out@;
            out.push(s[i]);
            assert(out@ + replaced(s@.skip(i + 1), pat@, rep@) =~= before + replaced(rest, pat@, rep@));
            i += 1;
        }
    }
    assert(s@.skip(i as int) =~= Seq::<char>::empty());
    assert(out@ + Seq::<char>::empty() =~= out@);
    out
}

/// An ASSRT download link with its HTML escapes undone: `%26amp%3B` and
/// `%26amp;` become `%26`, then `&amp;` becomes `&`.
pub open spec fn unescaped_link(url: Seq<char>) -> Seq<char> {
    replaced(
        replaced(replaced(url, "%26amp%3B"@, "%26"@), "%26amp;"@, "%26"@),
        "&amp;"@,
        "&"@,
    )
}

/// Undoes the HTML escapes in an ASSRT download link.
pub fn unescape_assrt_url(url: &str) -> (r: String)
    ensures
        r@ == unescaped_link(url@),
{
    proof {
        reveal_strlit("%26amp%3B");
        reveal_strlit("%26amp;");
        reveal_strlit("&amp;");
    }
    let u = chars_of(url);
    let a = replace_chars(&u, &chars_of("%26amp%3B"), &chars_of("%26"));
    let b = replace_chars(&a, &chars_of("%26amp;"), &chars_of("%26"));
    let c = replace_chars(&b, &chars_of("&amp;"), &chars_of("&"));
    string_of(&c)
}

/// The file to download from the first OpenSubtitles result: its first
/// file's id; no result, or a first result without files, finds nothing.
pub open spec fn os_pick(results: Seq<OsSearchResult>) -> Option<i64> {
    if results.len() > 0 && results[0].files@.len() > 0 {
        Some(results[0].files@[0].file_id)
    } else {
        None
    }
}

/// Chooses the OpenSubtitles file to download.
pub fn pick_os_file(results: &Vec<OsSearchResult>) -> (r: Result<i64, SubError>)
    ensures
        match os_pick(results@) {
            Some(id) => r == Ok::<i64, SubError>(id),
            None => r matches Err(SubError::NoSubtitleFound),
        },
{
    if results.len() == 0 {
        return Err(SubError::NoSubtitleFound);
    }
    let best = &results[0];
    if best.files.len() == 0 {
        return Err(SubError::NoSubtitleFound);
    }
    Ok(best.files[0].file_id)
}

/// How long a login token is used: 23 hours.
pub const TOKEN_TTL_SECS: u64 = 82800;

/// The login token used for a download: none without both a user name and
/// a password; else the cached token while younger than
/// [`TOKEN_TTL_SECS`]; else a new login is needed.
pub enum TokenStep {
    /// Download without logging in.
    Anonymous,
    /// Use this cached token.
    Cached(String),
    /// Log in first.
    Login,
}

/// Whether to log in, and with which token.  `cached` is the cached token
/// with its age in seconds.
pub fn token_step(username: &str, password: &str, cached: Option<(String, u64)>) -> (r: TokenStep)
    ensures
        !(username@.len() > 0 && password@.len() > 0) ==> r is Anonymous,
        (username@.len() > 0 && password@.len() > 0) ==> match cached {
            Some((t, age)) => if age < TOKEN_TTL_SECS {
                r matches TokenStep::Cached(c) && c == t
            } else {
                r is Login
            },
            None => r is Login,
        },
{
    if username.unicode_len() == 0 || password.unicode_len() == 0 {
        return TokenStep::Anonymous;
    }
    match cached {
        Some((t, age)) => {
            if age < TOKEN_TTL_SECS {
                TokenStep::Cached(t)
            } else {
                TokenStep::Login
            }
        },
        None => TokenStep::Login,
    }
}

/// A subtitle fetch needs the OpenSubtitles key: without one it fails
/// with the message that asks for it.
pub fn require_os_key(api_key: &str) -> (r: Result<(), SubError>)
    ensures
        api_key@.len() == 0 ==> (r matches Err(SubError::InvalidSrt(m))
            && m@ == "OpenSubtitles API key not configured. Set it in Settings → OpenSubtitles."@),
        api_key@.len() > 0 ==> r is Ok,
{
    if api_key.unicode_len() == 0 {
        return Err(
            SubError::InvalidSrt(
                string_of(&chars_of("OpenSubtitles API key not configured. Set it in Settings → OpenSubtitles.")),
            ),
        );
    }
    Ok(())
}

/// The extension given to a downloaded subtitle: `{lang}.srt`.
pub fn subtitle_extension(lang: &str) -> (r: String)
    ensures
        r@ == lang@ + ".srt"@,
{
    let mut v: Vec<char> = Vec::new();
    push_str(&mut v, lang);
    push_str(&mut v, ".srt");
    string_of(&v)
}
} // verus!
