//! Subtitle streams inside video files: the ffmpeg/ffprobe arguments that
//! read them, and how they are reported.
use vstd::prelude::*;

use crate::search::{clone_opt, opt_view};
use crate::text::{chars_of, decimal, push_decimal, push_str, string_of};

verus! {

/// The tags of a stream as ffprobe reports them.
#[derive(Debug)]
pub struct FfprobeTags {
    pub language: Option<String>,
    pub title: Option<String>,
}

/// A stream as ffprobe reports it.
#[derive(Debug)]
pub struct FfprobeStream {
    pub index: u32,
    pub codec_type: String,
    pub codec_name: String,
    pub start_time: String,
    pub duration_ts: u32,
    pub tags: Option<FfprobeTags>,
}

/// A subtitle stream of a video file.
#[derive(Debug)]
pub struct SubtitleStreamInfo {
    pub index: u32,
    pub codec_name: String,
    pub duration: u32,
    pub language: Option<String>,
    pub title: Option<String>,
}

/// How the streams are printed.
#[derive(Debug, Clone, Copy, PartialEq, Eq)]
pub enum OutputFormat {
    Json,
    Table,
    List,
}

/// The values of a [`SubtitleStreamInfo`].
pub open spec fn info_view(s: SubtitleStreamInfo) -> (u32, Seq<char>, u32, Option<Seq<char>>, Option<Seq<char>>) {
    (s.index, s.codec_name@, s.duration, opt_view(s.language), opt_view(s.title))
}

/// What is reported of a stream: index, codec, duration, and the language
/// and title tags when there are tags.
pub open spec fn stream_view(s: FfprobeStream) -> (u32, Seq<char>, u32, Option<Seq<char>>, Option<Seq<char>>) {
    (
        s.index,
        s.codec_name@,
        s.duration_ts,
        match s.tags {
            Some(t) => opt_view(t.language),
            None => None,
        },
        match s.tags {
            Some(t) => opt_view(t.title),
            None => None,
        },
    )
}

/// The subtitle streams reported for the streams ffprobe found, in order.
pub fn subtitle_streams(streams: &Vec<FfprobeStream>) -> (r: Vec<SubtitleStreamInfo>)
    ensures
        r@.map_values(|s: SubtitleStreamInfo| info_view(s)) == streams@.map_values(
            |s: FfprobeStream| stream_view(s),
        ),
{
    let mut out: Vec<SubtitleStreamInfo> = Vec::new();
    let mut k: usize = 0;
    while k < streams.len()
        invariant
            k <= streams@.len(),
            out@.map_values(|s: SubtitleStreamInfo| info_view(s)) == streams@.take(k as int).map_values(
                |s: FfprobeStream| stream_view(s),
            ),
        decreases streams@.len() - k,
    {
        let s = &streams[k];
        let (language, title) = match &s.tags {
            Some(t) => (clone_opt(&t.language), clone_opt(&t.title)),
            None => (None, None),
        };
        let info = SubtitleStreamInfo {
            index: s.index,
            codec_name: string_of(&chars_of(s.codec_name.as_str())),
            duration: s.duration_ts,
            language,
            title,
        };
        let ghost before = out@;
        out.push(info);
        assert(out@.map_values(|s: SubtitleStreamInfo| info_view(s)) =~= before.map_values(
            |s: SubtitleStreamInfo| info_view(s),
        ).push(stream_view(*s)));
        assert(streams@.take(k + 1).map_values(|s: FfprobeStream| stream_view(s)) =~= streams@.take(
            k as int,
        ).map_values(|s: FfprobeStream| stream_view(s)).push(stream_view(streams@[k as int])));
        k += 1;
    }
    assert(streams@.take(k as int) =~= streams@);
    out
}

/// The texts of strings.
pub open spec fn texts(v: Seq<String>) -> Seq<Seq<char>> {
    v.map_values(|s: String| s@)
}

/// The ffprobe arguments that list the subtitle streams of `path` as JSON.
pub fn probe_args(path: &str) -> (r: Vec<String>)
    ensures
        texts(r@) == seq![
            "-v"@,
            "quiet"@,
            "-print_format"@,
            "json"@,
            "-show_streams"@,
            "-select_streams"@,
            "s"@,
            "--"@,
            path@,
        ],
{
    let mut v: Vec<String> = Vec::new();
    v.push(string_of(&chars_of("-v")));
    v.push(string_of(&chars_of("quiet")));
    v.push(string_of(&chars_of("-print_format")));
    v.push(string_of(&chars_of("json")));
    v.push(string_of(&chars_of("-show_streams")));
    v.push(string_of(&chars_of("-select_streams")));
    v.push(string_of(&chars_of("s")));
    v.push(string_of(&chars_of("--")));
    v.push(string_of(&chars_of(path)));
    assert(texts(v@) =~= seq![
        "-v"@,
        "quiet"@,
        "-print_format"@,
        "json"@,
        "-show_streams"@,
        "-select_streams"@,
        "s"@,
        "--"@,
        path@,
    ]);
    v
}

/// The ffmpeg arguments that copy subtitle stream `stream` (the first when
/// none is given) of `file` into `out`.
pub fn extract_args(file: &str, out: &str, stream: Option<u32>) -> (r: Vec<String>)
    ensures
        texts(r@) == seq![
            "-i"@,
            file@,
            "-map"@,
            "0:s:"@ + decimal(
                match stream {
                    Some(s) => s as nat,
                    None => 0nat,
                },
            ),
            "-c"@,
            "copy"@,
            out@,
        ],
{
    let idx: u32 = match stream {
        Some(s) => s,
        None => 0,
    };
    let mut map_spec: Vec<char> = Vec::new();
    push_str(&mut map_spec, "0:s:");
    push_decimal(&mut map_spec, idx as u64);
    let mut v: Vec<String> = Vec::new();
    v.push(string_of(&chars_of("-i")));
    v.push(string_of(&chars_of(file)));
    v.push(string_of(&chars_of("-map")));
    v.push(string_of(&map_spec));
    v.push(string_of(&chars_of("-c")));
    v.push(string_of(&chars_of("copy")));
    v.push(string_of(&chars_of(out)));
    assert(texts(v@) =~= seq![
        "-i"@,
        file@,
        "-map"@,
        "0:s:"@ + decimal(idx as nat),
        "-c"@,
        "copy"@,
        out@,
    ]);
    v
}

/// The text of an optional tag, `N/A` when missing.
pub open spec fn or_na(o: Option<Seq<char>>) -> Seq<char> {
    match o {
        Some(t) => t,
        None => "N/A"@,
    }
}

/// The line printed for a stream in the table or list format:
/// `Index(i) Codec(c) Duration(dms) Language(l) Title(t)`, the list format
/// saying `Codec Name` for `Codec`.
pub open spec fn stream_line_text(list: bool, s: SubtitleStreamInfo) -> Seq<char> {
    "Index("@ + decimal(s.index as nat) + (if list { ") Codec Name("@ } else { ") Codec("@ })
        + s.codec_name@ + ") Duration("@ + decimal(s.duration as nat) + "ms) Language("@ + or_na(
        opt_view(s.language),
    ) + ") Title("@ + or_na(opt_view(s.title)) + ")"@
}

/// Appends an optional tag, `N/A` when missing.
fn push_tag(v: &mut Vec<char>, o: &Option<String>)
    ensures
        final(v)@ == old(v)@ + or_na(opt_view(*o)),
{
    match o {
        Some(t) => push_str(v, t.as_str()),
        None => push_str(v, "N/A"),
    }
}

/// The line printed for a stream; `list` picks the list format over the
/// table format.
pub fn stream_line(list: bool, s: &SubtitleStreamInfo) -> (r: String)
    ensures
        r@ == stream_line_text(list, *s),
{
    let mut v: Vec<char> = Vec::new();
    push_str(&mut v, "Index(");
    push_decimal(&mut v, s.index as u64);
    if list {
        push_str(&mut v, ") Codec Name(");
    } else {
        push_str(&mut v, ") Codec(");
    }
    push_str(&mut v, s.codec_name.as_str());
    push_str(&mut v, ") Duration(");
    push_decimal(&mut v, s.duration as u64);
    push_str(&mut v, "ms) Language(");
    push_tag(&mut v, &s.language);
    push_str(&mut v, ") Title(");
    push_tag(&mut v, &s.title);
    push_str(&mut v, ")");
    string_of(&v)
}

} // verus!
