//! Settings of the command-line tool and their defaults.
use vstd::prelude::*;

use crate::config::{default_alass, default_aria2c, default_lang, default_rate_limit};

verus! {

/// All settings of the command-line tool.
#[derive(Debug)]
pub struct Config {
    pub tools: ToolsConfig,
    pub search: SearchConfig,
    pub subtitle: SubtitleConfig,
    pub opensubtitles: OpenSubtitlesConfig,
}

/// Paths of the external tools.
#[derive(Debug)]
pub struct ToolsConfig {
    pub aria2c: String,
    pub alass: String,
}

#[derive(Debug)]
pub struct SearchConfig {
    pub rate_limit_secs: u64,
}

#[derive(Debug)]
pub struct SubtitleConfig {
    pub default_lang: String,
}

#[derive(Debug)]
pub struct OpenSubtitlesConfig {
    pub api_key: String,
}

impl Default for ToolsConfig {
    fn default() -> (r: Self)
        ensures
            r.aria2c@ == "aria2c"@,
            r.alass@ == "alass"@,
    {
        ToolsConfig { aria2c: default_aria2c(), alass: default_alass() }
    }
}

impl Default for SearchConfig {
    fn default() -> (r: Self)
        ensures
            r.rate_limit_secs == 5,
    {
        SearchConfig { rate_limit_secs: default_rate_limit() }
    }
}

impl Default for SubtitleConfig {
    fn default() -> (r: Self)
        ensures
            r.default_lang@ == "zh"@,
    {
        SubtitleConfig { default_lang: default_lang() }
    }
}

impl Default for OpenSubtitlesConfig {
    fn default() -> (r: Self)
        ensures
            r.api_key@ == Seq::<char>::empty(),
    {
        OpenSubtitlesConfig { api_key: String::new() }
    }
}

impl Default for Config {
    fn default() -> (r: Self)
        ensures
            r.tools.aria2c@ == "aria2c"@,
            r.tools.alass@ == "alass"@,
            r.search.rate_limit_secs == 5,
            r.subtitle.default_lang@ == "zh"@,
            r.opensubtitles.api_key@ == Seq::<char>::empty(),
    {
        Config {
            tools: ToolsConfig::default(),
            search: SearchConfig::default(),
            subtitle: SubtitleConfig::default(),
            opensubtitles: OpenSubtitlesConfig::default(),
        }
    }
}

} // verus!
