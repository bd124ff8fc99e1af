//! Application settings and their defaults.
use vstd::prelude::*;

use crate::text::{chars_of, push_str, string_of};

verus! {

/// All settings; every section falls back to its defaults.
#[derive(Debug)]
pub struct Config {
    pub tools: ToolsConfig,
    pub search: SearchConfig,
    pub subtitle: SubtitleConfig,
    pub opensubtitles: OpenSubtitlesConfig,
    pub tmdb: TmdbConfig,
    pub library: LibraryConfig,
}

/// Paths of the external tools.
#[derive(Debug)]
pub struct ToolsConfig {
    pub aria2c: String,
    pub alass: String,
    pub ffmpeg: String,
}

#[derive(Debug)]
pub struct SearchConfig {
    pub rate_limit_secs: u64,
}

#[derive(Debug)]
pub struct SubtitleConfig {
    pub default_lang: String,
}

#[derive(Debug)]
pub struct OpenSubtitlesConfig {
    pub api_key: String,
}

#[derive(Debug)]
pub struct TmdbConfig {
    pub api_key: String,
}

#[derive(Debug)]
pub struct LibraryConfig {
    pub root_dir: String,
}

/// The default aria2c command.
pub fn default_aria2c() -> (r: String)
    ensures
        r@ == "aria2c"@,
{
    "aria2c".to_string()
}

/// The default alass command.
pub fn default_alass() -> (r: String)
    ensures
        r@ == "alass"@,
{
    "alass".to_string()
}

/// The default ffmpeg command.
pub fn default_ffmpeg() -> (r: String)
    ensures
        r@ == "ffmpeg"@,
{
    "ffmpeg".to_string()
}

/// The default pause between searches, in seconds.
pub fn default_rate_limit() -> (r: u64)
    ensures
        r == 5,
{
    5
}

/// The default subtitle language.
pub fn default_lang() -> (r: String)
    ensures
        r@ == "zh"@,
{
    "zh".to_string()
}

/// The user's home directory as text (`dirs::home_dir`, converted with
/// `to_string_lossy`).  Nothing is stated of it: it depends on the
/// environment of the process.
#[verifier::external_body]
fn home_dir_text() -> Option<String> {
    dirs::home_dir().map(|h| h.to_string_lossy().into_owned())
}

/// `base` extended by the relative component `comp`, a `/` put between them
/// unless `base` is empty or already ends with one (`Path::join` on Unix).
pub open spec fn path_join(base: Seq<char>, comp: Seq<char>) -> Seq<char> {
    if base.len() == 0 || base.last() == '/' {
        base + comp
    } else {
        base + seq!['/'] + comp
    }
}

fn push_component(out: &mut Vec<char>, comp: &str)
    ensures
        final(out)@ == path_join(old(out)@, comp@),
{
    if out.len() > 0 && out[out.len() - 1] != '/' {
        out.push('/');
    }
    push_str(out, comp);
}

/// The library directory when none is set: `Movies/blowup` under the home
/// directory, or `~/Movies/blowup` when the home directory is unknown.
pub open spec fn root_dir_default(home: Option<Seq<char>>) -> Seq<char> {
    match home {
        Some(h) => path_join(path_join(h, "Movies"@), "blowup"@),
        None => "~/Movies/blowup"@,
    }
}

/// The library directory when none is set, for a home directory that is
/// given (or unknown): `{home}/Movies/blowup`, or `~/Movies/blowup`.
pub fn root_dir_for_home(home: Option<String>) -> (r: String)
    ensures
        r@ == root_dir_default(
            match home {
                Some(h) => Some(h@),
                None => None,
            },
        ),
        r@.len() >= 6 && r@.subrange(r@.len() - 6, r@.len() as int) == "blowup"@,
{
    proof {
        reveal_strlit("blowup");
        reveal_strlit("~/Movies/blowup");
    }
    match home {
        Some(h) => {
            let mut out = chars_of(h.as_str());
            push_component(&mut out, "Movies");
            push_component(&mut out, "blowup");
            assert(out@.subrange(out@.len() - 6, out@.len() as int) =~= "blowup"@);
            assert(out@ == root_dir_default(Some(h@)));
            string_of(&out)
        },
        None => {
            let r = "~/Movies/blowup".to_string();
            assert(r@.subrange(r@.len() - 6, r@.len() as int) =~= "blowup"@);
            assert(r@ == root_dir_default(None));
            r
        },
    }
}

/// The default library directory: [`root_dir_for_home`] of the user's home
/// directory as the process finds it.  Whatever that is, the path is the
/// default for some home and ends with `blowup`.
pub fn default_root_dir() -> (r: String)
    ensures
        exists|home: Option<Seq<char>>| r@ == root_dir_default(home),
        r@.len() >= 6 && r@.subrange(r@.len() - 6, r@.len() as int) == "blowup"@,
{
    let home = home_dir_text();
    let ghost hv = match &home {
        Some(h) => Some(h@),
        None => None,
    };
    let r = root_dir_for_home(home);
    assert(r@ == root_dir_default(hv));
    r
}

impl Default for ToolsConfig {
    fn default() -> (r: Self)
        ensures
            r.aria2c@ == "aria2c"@,
            r.alass@ == "alass"@,
            r.ffmpeg@ == "ffmpeg"@,
    {
        ToolsConfig { aria2c: default_aria2c(), alass: default_alass(), ffmpeg: default_ffmpeg() }
    }
}

impl Default for SearchConfig {
    fn default() -> (r: Self)
        ensures
            r.rate_limit_secs == 5,
    {
        SearchConfig { rate_limit_secs: default_rate_limit() }
    }
}

impl Default for SubtitleConfig {
    fn default() -> (r: Self)
        ensures
            r.default_lang@ == "zh"@,
    {
        SubtitleConfig { default_lang: default_lang() }
    }
}

impl Default for OpenSubtitlesConfig {
    fn default() -> (r: Self)
        ensures
            r.api_key@ == Seq::<char>::empty(),
    {
        OpenSubtitlesConfig { api_key: String::new() }
    }
}

impl Default for TmdbConfig {
    fn default() -> (r: Self)
        ensures
            r.api_key@ == Seq::<char>::empty(),
    {
        TmdbConfig { api_key: String::new() }
    }
}

impl Default for LibraryConfig {
    fn default() -> (r: Self)
        ensures
            exists|home: Option<Seq<char>>| r.root_dir@ == root_dir_default(home),
    {
        LibraryConfig { root_dir: default_root_dir() }
    }
}

impl Default for Config {
    fn default() -> (r: Self)
        ensures
            r.tools.aria2c@ == "aria2c"@,
            r.tools.alass@ == "alass"@,
            r.tools.ffmpeg@ == "ffmpeg"@,
            r.search.rate_limit_secs == 5,
            r.subtitle.default_lang@ == "zh"@,
            r.opensubtitles.api_key@ == Seq::<char>::empty(),
            r.tmdb.api_key@ == Seq::<char>::empty(),
            exists|home: Option<Seq<char>>| r.library.root_dir@ == root_dir_default(home),
    {
        Config {
            tools: ToolsConfig::default(),
            search: SearchConfig::default(),
            subtitle: SubtitleConfig::default(),
            opensubtitles: OpenSubtitlesConfig::default(),
            tmdb: TmdbConfig::default(),
            library: LibraryConfig::default(),
        }
    }
}

} // verus!
