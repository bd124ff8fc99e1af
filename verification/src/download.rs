//! Downloads of films: their records, the watch over a running download,
//! and the library entry made when one completes.
use vstd::prelude::*;

use crate::library_index::IndexEntry;
use crate::text::{chars_eq_str, chars_of, decimal, push_decimal, push_str, string_of};

verus! {

/// A row of the download table.
#[derive(Debug, Clone)]
pub struct DownloadRecord {
    pub id: i64,
    pub tmdb_id: Option<i64>,
    pub title: String,
    pub director: Option<String>,
    pub quality: Option<String>,
    pub target: String,
    pub status: String,
    pub torrent_id: Option<i64>,
    pub progress_bytes: i64,
    pub total_bytes: i64,
    pub error_message: Option<String>,
    pub started_at: String,
    pub completed_at: Option<String>,
}

/// What the front end asks for when it starts a download.
#[derive(Debug)]
pub struct StartDownloadRequest {
    pub title: String,
    pub target: String,
    pub director: String,
    pub tmdb_id: u64,
    pub year: Option<u32>,
    pub genres: Option<Vec<String>>,
    pub quality: Option<String>,
    pub only_files: Option<Vec<usize>>,
}

/// A file inside a torrent.
#[derive(Debug)]
pub struct TorrentFileInfo {
    pub index: usize,
    pub name: String,
    pub size: u64,
}


/// How a running download stands.
#[derive(Debug)]
pub struct DownloadStats {
    pub progress_bytes: u64,
    pub total_bytes: u64,
    pub finished: bool,
    pub error: Option<String>,
}

/// What the watch over a download does after reading its state.
#[derive(Debug)]
pub enum MonitorAction {
    /// Record the progress and look again later.
    Continue,
    /// Record the download as completed and add the film to the library.
    Complete,
    /// Record the download as failed with this message.
    Fail(String),
}

/// The watch's decision: a finished download completes (even when an
/// error was reported), one with an error fails, any other goes on.
pub fn monitor_step(stats: &DownloadStats) -> (r: MonitorAction)
    ensures
        stats.finished ==> r is Complete,
        !stats.finished && stats.error is Some ==> (r matches MonitorAction::Fail(m) && m@ == stats.error->0@),
        !stats.finished && stats.error is None ==> r is Continue,
{
    if stats.finished {
        MonitorAction::Complete
    } else {
        match &stats.error {
            Some(e) => MonitorAction::Fail(string_of(&chars_of(e.as_str()))),
            None => MonitorAction::Continue,
        }
    }
}

/// The library entry made when a download completes: the film's id,
/// title, director (stored under the normalised name, shown as given),
/// year and genres, its directory `{director}/{id}` and the files found
/// there; nothing fetched from TMDB yet.
pub fn downloaded_entry(
    tmdb_id: u64,
    title: String,
    director: String,
    director_display: String,
    year: Option<u32>,
    genres: Vec<String>,
    files: Vec<String>,
    added_at: String,
) -> (r: IndexEntry)
    ensures
        r.tmdb_id == tmdb_id,
        r.title == title,
        r.director@ == director@,
        r.director_display == director_display,
        r.year == year,
        r.genres == genres,
        r.path@ == director@ + "/"@ + decimal(tmdb_id as nat),
        r.files == files,
        r.added_at == added_at,
        r.poster_url is None,
        r.overview is None,
        r.rating_bits is None,
        r.credits@.len() == 0,
        r.original_title is None,
        r.media_info@.len() == 0,
{
    let mut path: Vec<char> = Vec::new();
    push_str(&mut path, director.as_str());
    push_str(&mut path, "/");
    push_decimal(&mut path, tmdb_id);
    proof {
        reveal_strlit("/");
    }
    IndexEntry {
        tmdb_id,
        title,
        director,
        director_display,
        year,
        genres,
        path: string_of(&path),
        files,
        added_at,
        poster_url: None,
        overview: None,
        rating_bits: None,
        credits: Vec::new(),
        original_title: None,
        media_info: Vec::new(),
    }
}

/// A download that is still running or waiting: deleting it also stops it
/// and removes its files and its library entry.
pub open spec fn active_status(status: Seq<char>) -> bool {
    status == "downloading"@ || status == "paused"@ || status == "pending"@
}

/// Whether a download with this status is still running or waiting.
pub fn is_active_status(status: &str) -> (r: bool)
    ensures
        r == active_status(status@),
{
    let s = chars_of(status);
    chars_eq_str(&s, "downloading") || chars_eq_str(&s, "paused") || chars_eq_str(&s, "pending")
}

impl DownloadRecord {
    /// The TMDB id of the film downloaded (0 when unknown), read as
    /// unsigned.
    pub fn film_id(&self) -> (r: u64)
        ensures
            r == (match self.tmdb_id {
                Some(i) => i,
                None => 0,
            }) as u64,
    {
        let i: i64 = match self.tmdb_id {
            Some(i) => i,
            None => 0,
        };
        i as u64
    }

    /// The director the files were filed under (`Unknown` when unknown).
    pub fn director_name(&self) -> (r: String)
        ensures
            r@ == match self.director {
                Some(d) => d@,
                None => "Unknown"@,
            },
    {
        match &self.director {
            Some(d) => string_of(&chars_of(d.as_str())),
            None => string_of(&chars_of("Unknown")),
        }
    }
}

/// Why the library directory cannot take a download.
#[derive(Debug)]
pub enum RootProblem {
    /// No library directory is set.
    Unset,
    /// The path is not a directory.
    NotDirectory,
    /// The directory cannot be written to.
    NotWritable,
    /// Creating the directory failed with this message.
    CreateFailed(String),
}

/// The message shown for a problem with the library directory `root`.
pub open spec fn root_problem_text(p: RootProblem, root: Seq<char>) -> Seq<char> {
    match p {
        RootProblem::Unset => "库目录未设置，请在设置中配置库目录路径"@,
        RootProblem::NotDirectory => "库目录路径「"@ + root + "」不是一个目录，请在设置中修改"@,
        RootProblem::NotWritable => "库目录「"@ + root + "」没有写入权限，请在设置中修改或调整目录权限"@,
        RootProblem::CreateFailed(e) => "无法创建库目录「"@ + root + "」: "@ + e@ + "，请在设置中修改路径"@,
    }
}

/// The message shown for a problem with the library directory.
pub fn root_problem_message(p: &RootProblem, root: &str) -> (r: String)
    ensures
        r@ == root_problem_text(*p, root@),
{
    let mut v: Vec<char> = Vec::new();
    match p {
        RootProblem::Unset => push_str(&mut v, "库目录未设置，请在设置中配置库目录路径"),
        RootProblem::NotDirectory => {
            push_str(&mut v, "库目录路径「");
            push_str(&mut v, root);
            push_str(&mut v, "」不是一个目录，请在设置中修改");
        },
        RootProblem::NotWritable => {
            push_str(&mut v, "库目录「");
            push_str(&mut v, root);
            push_str(&mut v, "」没有写入权限，请在设置中修改或调整目录权限");
        },
        RootProblem::CreateFailed(e) => {
            push_str(&mut v, "无法创建库目录「");
            push_str(&mut v, root);
            push_str(&mut v, "」: ");
            push_str(&mut v, e.as_str());
            push_str(&mut v, "，请在设置中修改路径");
        },
    }
    string_of(&v)
}
} // verus!
