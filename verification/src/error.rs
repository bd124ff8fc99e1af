//! Error types and their messages.
use vstd::prelude::*;

use crate::text::{chars_of, push_all, push_str, string_of};

verus! {

/// `std::io::Error`, carried through unchanged.
#[verifier::external_type_specification]
#[verifier::external_body]
pub struct ExIoError(std::io::Error);

/// `reqwest::Error`, carried through unchanged.
#[verifier::external_type_specification]
#[verifier::external_body]
pub struct ExReqwestError(reqwest::Error);

/// The `Display` text of an I/O error (`<std::io::Error as Display>::fmt`).
/// Nothing is stated of it: it holds the operating system's description of
/// the error.
#[verifier::external_body]
fn io_error_text(e: &std::io::Error) -> String {
    format!("{}", e)
}

/// The `Display` text of an HTTP client error (`<reqwest::Error as
/// Display>::fmt`).  Nothing is stated of it: it describes a failure of the
/// network or of the remote service.
#[verifier::external_body]
fn http_error_text(e: &reqwest::Error) -> String {
    format!("{}", e)
}

/// `prefix` followed by `rest`.
fn message(prefix: &str, rest: &String) -> (r: String)
    ensures
        r@ == prefix@ + rest@,
{
    let mut out: Vec<char> = Vec::new();
    push_str(&mut out, prefix);
    let tail = chars_of(rest.as_str());
    push_all(&mut out, &tail);
    string_of(&out)
}

/// `prefix`, `inner`, then `suffix`.
fn message3(prefix: &str, inner: &String, suffix: &str) -> (r: String)
    ensures
        r@ == prefix@ + inner@ + suffix@,
{
    let mut out: Vec<char> = Vec::new();
    push_str(&mut out, prefix);
    let mid = chars_of(inner.as_str());
    push_all(&mut out, &mid);
    push_str(&mut out, suffix);
    string_of(&out)
}

/// Errors of the subtitle tools.
#[derive(Debug)]
pub enum SubError {
    NoSubtitleFound,
    HttpFailed(reqwest::Error),
    AlassNotFound,
    AlassFailed(String),
    Io(std::io::Error),
    InvalidSrt(String),
}

impl SubError {
    /// The message shown for the error.
    pub fn to_string(&self) -> (r: String)
        ensures
            match self {
                SubError::NoSubtitleFound => r@ == "Subtitle source returned no results"@,
                SubError::HttpFailed(_) => r@.len() >= "HTTP request failed: "@.len() && r@.take(
                    "HTTP request failed: "@.len() as int,
                ) == "HTTP request failed: "@,
                SubError::AlassNotFound => r@ == "alass not found in PATH"@,
                SubError::AlassFailed(s) => r@ == "alass failed: "@ + s@,
                SubError::Io(_) => r@.len() >= "IO error: "@.len() && r@.take(
                    "IO error: "@.len() as int,
                ) == "IO error: "@,
                SubError::InvalidSrt(s) => r@ == "Invalid SRT format: "@ + s@,
            },
    {
        match self {
            SubError::NoSubtitleFound => "Subtitle source returned no results".to_string(),
            SubError::HttpFailed(e) => {
                let r = message("HTTP request failed: ", &http_error_text(e));
                assert(r@.take("HTTP request failed: "@.len() as int) =~= "HTTP request failed: "@);
                r
            },
            SubError::AlassNotFound => "alass not found in PATH".to_string(),
            SubError::AlassFailed(s) => message("alass failed: ", s),
            SubError::Io(e) => {
                let r = message("IO error: ", &io_error_text(e));
                assert(r@.take("IO error: "@.len() as int) =~= "IO error: "@);
                r
            },
            SubError::InvalidSrt(s) => message("Invalid SRT format: ", s),
        }
    }
}

/// Errors of the torrent search.
#[derive(Debug)]
pub enum SearchError {
    HttpFailed(reqwest::Error),
    NoResults(String),
    CdpUnavailable(String),
}

impl SearchError {
    /// The message shown for the error.
    pub fn to_string(&self) -> (r: String)
        ensures
            match self {
                SearchError::HttpFailed(_) => r@.len() >= "HTTP request failed: "@.len() && r@.take(
                    "HTTP request failed: "@.len() as int,
                ) == "HTTP request failed: "@,
                SearchError::NoResults(q) => r@ == "No results found for query: "@ + q@,
                SearchError::CdpUnavailable(s) => r@ == "CDP browser not available: "@ + s@,
            },
    {
        match self {
            SearchError::HttpFailed(e) => {
                let r = message("HTTP request failed: ", &http_error_text(e));
                assert(r@.take("HTTP request failed: "@.len() as int) =~= "HTTP request failed: "@);
                r
            },
            SearchError::NoResults(q) => message("No results found for query: ", q),
            SearchError::CdpUnavailable(s) => message("CDP browser not available: ", s),
        }
    }
}

/// Errors of the TMDB client.
#[derive(Debug)]
pub enum TmdbError {
    ApiKeyMissing,
    NotFound(String),
    ParseFailed(String),
    HttpFailed(reqwest::Error),
}

impl TmdbError {
    /// The message shown for the error.
    pub fn to_string(&self) -> (r: String)
        ensures
            match self {
                TmdbError::ApiKeyMissing => r@ == "TMDB API key not configured.\nRun: blowup config set tmdb.api_key YOUR_KEY\nGet a free key at: https://www.themoviedb.org/settings/api"@,
                TmdbError::NotFound(s) => r@ == "Movie not found: "@ + s@,
                TmdbError::ParseFailed(s) => r@ == "Failed to parse TMDB response: "@ + s@,
                TmdbError::HttpFailed(_) => r@.len() >= "HTTP request failed: "@.len() && r@.take(
                    "HTTP request failed: "@.len() as int,
                ) == "HTTP request failed: "@,
            },
    {
        match self {
            TmdbError::ApiKeyMissing => "TMDB API key not configured.\nRun: blowup config set tmdb.api_key YOUR_KEY\nGet a free key at: https://www.themoviedb.org/settings/api".to_string(),
            TmdbError::NotFound(s) => message("Movie not found: ", s),
            TmdbError::ParseFailed(s) => message("Failed to parse TMDB response: ", s),
            TmdbError::HttpFailed(e) => {
                let r = message("HTTP request failed: ", &http_error_text(e));
                assert(r@.take("HTTP request failed: "@.len() as int) =~= "HTTP request failed: "@);
                r
            },
        }
    }
}

/// Errors of the download tools.
#[derive(Debug)]
pub enum DownloadError {
    Aria2cNotFound,
    Aria2cFailed(String),
    Io(std::io::Error),
}

impl DownloadError {
    /// The message shown for the error.
    pub fn to_string(&self) -> (r: String)
        ensures
            match self {
                DownloadError::Aria2cNotFound => r@ == "aria2c not found in PATH"@,
                DownloadError::Aria2cFailed(s) => r@ == "aria2c failed: "@ + s@,
                DownloadError::Io(_) => r@.len() >= "IO error: "@.len() && r@.take(
                    "IO error: "@.len() as int,
                ) == "IO error: "@,
            },
    {
        match self {
            DownloadError::Aria2cNotFound => "aria2c not found in PATH".to_string(),
            DownloadError::Aria2cFailed(s) => message("aria2c failed: ", s),
            DownloadError::Io(e) => {
                let r = message("IO error: ", &io_error_text(e));
                assert(r@.take("IO error: "@.len() as int) =~= "IO error: "@);
                r
            },
        }
    }
}

/// Errors of the `config` command.
#[derive(Debug)]
pub enum ConfigCmdError {
    InvalidKeyFormat(String),
    UnknownKey(String),
    Io(std::io::Error),
    TomlParse(String),
}

impl ConfigCmdError {
    /// The message shown for the error.
    pub fn to_string(&self) -> (r: String)
        ensures
            match self {
                ConfigCmdError::InvalidKeyFormat(k) => r@ == "Invalid key format: '"@ + k@
                    + "' (expected: section.field, e.g. tmdb.api_key)"@,
                ConfigCmdError::UnknownKey(k) => r@ == "Unknown config key: '"@ + k@ + "'"@,
                ConfigCmdError::Io(_) => r@.len() >= "IO error: "@.len() && r@.take(
                    "IO error: "@.len() as int,
                ) == "IO error: "@,
                ConfigCmdError::TomlParse(s) => r@ == "TOML parse error: "@ + s@,
            },
    {
        match self {
            ConfigCmdError::InvalidKeyFormat(k) => message3(
                "Invalid key format: '",
                k,
                "' (expected: section.field, e.g. tmdb.api_key)",
            ),
            ConfigCmdError::UnknownKey(k) => message3("Unknown config key: '", k, "'"),
            ConfigCmdError::Io(e) => {
                let r = message("IO error: ", &io_error_text(e));
                assert(r@.take("IO error: "@.len() as int) =~= "IO error: "@);
                r
            },
            ConfigCmdError::TomlParse(s) => message("TOML parse error: ", s),
        }
    }
}

} // verus!
