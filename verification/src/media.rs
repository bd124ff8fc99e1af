//! What ffprobe reports of a video file: its format and its streams, read
//! into the records kept in the library index.
use vstd::prelude::*;

use crate::library_index::{FileMediaInfo, FileStreamInfo, LibraryIndex, media_map};
use crate::search::opt_view;
use crate::subtitle_streams::texts;
use crate::text::{chars_eq, chars_eq_str, chars_of, parse_i64, parsed_i64, push_signed, push_str, signed_decimal, string_of};

verus! {

/// One stream of a probed file.
#[derive(Debug)]
pub struct StreamInfo {
    pub index: i64,
    pub codec_type: String,
    pub codec_name: String,
    pub width: Option<i64>,
    pub height: Option<i64>,
    pub frame_rate: Option<String>,
    pub bit_rate: Option<i64>,
    pub channels: Option<i64>,
    pub sample_rate: Option<String>,
    pub language: Option<String>,
    pub title: Option<String>,
}

/// What probing a file found.
#[derive(Debug)]
pub struct MediaInfo {
    pub file_path: String,
    pub file_size: Option<i64>,
    /// The duration in seconds as ffprobe writes it.
    pub duration_text: Option<String>,
    pub format_name: Option<String>,
    pub bit_rate: Option<i64>,
    pub streams: Vec<StreamInfo>,
}

/// The values of ffprobe's `format` object that are read: each string
/// field when it is a string.
#[derive(Debug)]
pub struct ProbeFormat {
    pub size: Option<String>,
    pub duration: Option<String>,
    pub format_name: Option<String>,
    pub bit_rate: Option<String>,
}

/// The values of one of ffprobe's `streams` that are read: each field when
/// it has the expected JSON type (a number for the integers, a string for
/// the rest); `language` and `title` come from `tags`.
#[derive(Debug)]
pub struct ProbeStream {
    pub index: Option<i64>,
    pub codec_type: Option<String>,
    pub codec_name: Option<String>,
    pub width: Option<i64>,
    pub height: Option<i64>,
    pub r_frame_rate: Option<String>,
    pub bit_rate: Option<String>,
    pub channels: Option<i64>,
    pub sample_rate: Option<String>,
    pub language: Option<String>,
    pub title: Option<String>,
}

/// The number written in an optional text, when it reads as an `i64`.
pub open spec fn opt_number(o: Option<String>) -> Option<i64> {
    match o {
        Some(s) => parsed_i64(s@),
        None => None,
    }
}

/// The text of an optional string, or `d`.
pub open spec fn text_or(o: Option<String>, d: Seq<char>) -> Seq<char> {
    match o {
        Some(s) => s@,
        None => d,
    }
}

/// A stream as reported: a missing index reads 0, a missing codec type or
/// name `unknown`, the bit rate is the number its text holds.
pub open spec fn stream_ok(r: StreamInfo, s: ProbeStream) -> bool {
    &&& r.index == match s.index {
        Some(i) => i,
        None => 0,
    }
    &&& r.codec_type@ == text_or(s.codec_type, "unknown"@)
    &&& r.codec_name@ == text_or(s.codec_name, "unknown"@)
    &&& r.width == s.width
    &&& r.height == s.height
    &&& opt_view(r.frame_rate) == opt_view(s.r_frame_rate)
    &&& r.bit_rate == opt_number(s.bit_rate)
    &&& r.channels == s.channels
    &&& opt_view(r.sample_rate) == opt_view(s.sample_rate)
    &&& opt_view(r.language) == opt_view(s.language)
    &&& opt_view(r.title) == opt_view(s.title)
}

/// A copy of an optional string.
fn copy_opt(o: &Option<String>) -> (r: Option<String>)
    ensures
        opt_view(r) == opt_view(*o),
{
    crate::search::clone_opt(o)
}

/// The number an optional text holds.
fn opt_number_of(o: &Option<String>) -> (r: Option<i64>)
    ensures
        r == opt_number(*o),
{
    match o {
        Some(s) => parse_i64(s.as_str()),
        None => None,
    }
}

/// The text of an optional string, or `d`.
fn text_or_of(o: &Option<String>, d: &str) -> (r: String)
    ensures
        r@ == text_or(*o, d@),
{
    match o {
        Some(s) => string_of(&chars_of(s.as_str())),
        None => string_of(&chars_of(d)),
    }
}

/// What probing a file found: the size and bit rate read as numbers, the
/// duration and format name as written, and the streams, none when the
/// answer has no stream list.
pub fn media_info_from(file_path: String, format: &ProbeFormat, streams: &Option<Vec<ProbeStream>>) -> (r: MediaInfo)
    ensures
        r.file_path == file_path,
        r.file_size == opt_number(format.size),
        opt_view(r.duration_text) == opt_view(format.duration),
        opt_view(r.format_name) == opt_view(format.format_name),
        r.bit_rate == opt_number(format.bit_rate),
        match streams {
            Some(ss) => r.streams@.len() == ss@.len() && forall|i: int|
                0 <= i < ss@.len() ==> stream_ok(#[trigger] r.streams@[i], ss@[i]),
            None => r.streams@.len() == 0,
        },
{
    let mut out: Vec<StreamInfo> = Vec::new();
    match streams {
        Some(ss) => {
            let mut k: usize = 0;
            while k < ss.len()
                invariant
                    k <= ss@.len(),
                    out@.len() == k,
                    forall|i: int| 0 <= i < k ==> stream_ok(#[trigger] out@[i], ss@[i]),
                decreases ss@.len() - k,
            {
                let s = &ss[k];
                let info = StreamInfo {
                    index: match s.index {
                        Some(i) => i,
                        None => 0,
                    },
                    codec_type: text_or_of(&s.codec_type, "unknown"),
                    codec_name: text_or_of(&s.codec_name, "unknown"),
                    width: s.width,
                    height: s.height,
                    frame_rate: copy_opt(&s.r_frame_rate),
                    bit_rate: opt_number_of(&s.bit_rate),
                    channels: s.channels,
                    sample_rate: copy_opt(&s.sample_rate),
                    language: copy_opt(&s.language),
                    title: copy_opt(&s.title),
                };
                out.push(info);
                k += 1;
            }
        },
        None => {},
    }
    MediaInfo {
        file_path,
        file_size: opt_number_of(&format.size),
        duration_text: copy_opt(&format.duration),
        format_name: copy_opt(&format.format_name),
        bit_rate: opt_number_of(&format.bit_rate),
        streams: out,
    }
}

/// The record kept in the index for a probed file: the same values, the
/// duration given as the bits of the `f64` read from its text.
pub fn to_file_media_info(detail: MediaInfo, duration_secs_bits: Option<u64>) -> (r: FileMediaInfo)
    ensures
        r.file_size == detail.file_size,
        r.duration_secs_bits == duration_secs_bits,
        r.format_name == detail.format_name,
        r.bit_rate == detail.bit_rate,
        r.streams@.len() == detail.streams@.len(),
        forall|i: int|
            0 <= i < r.streams@.len() ==> {
                let a = #[trigger] r.streams@[i];
                let b = detail.streams@[i];
                &&& a.index == b.index
                &&& a.codec_type == b.codec_type
                &&& a.codec_name == b.codec_name
                &&& a.width == b.width
                &&& a.height == b.height
                &&& a.frame_rate == b.frame_rate
                &&& a.bit_rate == b.bit_rate
                &&& a.channels == b.channels
                &&& a.sample_rate == b.sample_rate
                &&& a.language == b.language
                &&& a.title == b.title
            },
{
    let ghost orig = detail.streams@;
    let ghost n: int = orig.len() as int;
    let mut rest = detail.streams;
    let mut out: Vec<FileStreamInfo> = Vec::new();
    while rest.len() > 0
        invariant
            n == orig.len(),
            rest@.len() <= n,
            rest@ == orig.subrange(n - rest@.len(), n),
            out@.len() == n - rest@.len(),
            forall|i: int|
                0 <= i < out@.len() ==> {
                    let a = #[trigger] out@[i];
                    let b = orig[i];
                    &&& a.index == b.index
                    &&& a.codec_type == b.codec_type
                    &&& a.codec_name == b.codec_name
                    &&& a.width == b.width
                    &&& a.height == b.height
                    &&& a.frame_rate == b.frame_rate
                    &&& a.bit_rate == b.bit_rate
                    &&& a.channels == b.channels
                    &&& a.sample_rate == b.sample_rate
                    &&& a.language == b.language
                    &&& a.title == b.title
                },
        decreases rest@.len(),
    {
        let ghost k: int = n - rest@.len();
        let s = rest.remove(0);
        assert(s == orig[k]);
        assert(rest@ =~= orig.subrange(k + 1, n));
        out.push(
            FileStreamInfo {
                index: s.index,
                codec_type: s.codec_type,
                codec_name: s.codec_name,
                width: s.width,
                height: s.height,
                frame_rate: s.frame_rate,
                bit_rate: s.bit_rate,
                channels: s.channels,
                sample_rate: s.sample_rate,
                language: s.language,
                title: s.title,
            },
        );
    }
    FileMediaInfo {
        file_size: detail.file_size,
        duration_secs_bits,
        format_name: detail.format_name,
        bit_rate: detail.bit_rate,
        streams: out,
    }
}

/// The ffprobe arguments that describe the format and the streams of
/// `path` as JSON.
pub fn detail_probe_args(path: &str) -> (r: Vec<String>)
    ensures
        texts(r@) == seq![
            "-v"@,
            "quiet"@,
            "-print_format"@,
            "json"@,
            "-show_format"@,
            "-show_streams"@,
            "--"@,
            path@,
        ],
{
    let mut v: Vec<String> = Vec::new();
    v.push(string_of(&chars_of("-v")));
    v.push(string_of(&chars_of("quiet")));
    v.push(string_of(&chars_of("-print_format")));
    v.push(string_of(&chars_of("json")));
    v.push(string_of(&chars_of("-show_format")));
    v.push(string_of(&chars_of("-show_streams")));
    v.push(string_of(&chars_of("--")));
    v.push(string_of(&chars_of(path)));
    assert(texts(v@) =~= seq![
        "-v"@,
        "quiet"@,
        "-print_format"@,
        "json"@,
        "-show_format"@,
        "-show_streams"@,
        "--"@,
        path@,
    ]);
    v
}

/// The probe result cached for file `filename` of the first entry with
/// TMDB id `tmdb_id`, if any.
pub fn cached_media_info<'a>(index: &'a LibraryIndex, tmdb_id: u64, filename: &str) -> (r: Option<&'a FileMediaInfo>)
    ensures
        match r {
            Some(info) => crate::library_index::lookup(index.entries@, tmdb_id) matches Some(e)
                && media_map(e.media_info@).contains_key(filename@) && media_map(e.media_info@)[filename@] == *info,
            None => match crate::library_index::lookup(index.entries@, tmdb_id) {
                Some(e) => !media_map(e.media_info@).contains_key(filename@),
                None => true,
            },
        },
{
    match index.get_entry(tmdb_id) {
        Some(e) => {
            let name = chars_of(filename);
            let mut k = e.media_info.len();
            assert(e.media_info@.take(k as int) =~= e.media_info@);
            while k > 0
                invariant
                    k <= e.media_info@.len(),
                    name@ == filename@,
                    crate::library_index::lookup(index.entries@, tmdb_id) == Some(*e),
                    media_map(e.media_info@).contains_key(filename@) ==> media_map(e.media_info@.take(k as int)).contains_key(filename@)
                        && media_map(e.media_info@)[filename@] == media_map(e.media_info@.take(k as int))[filename@],
                    !media_map(e.media_info@).contains_key(filename@) ==> !media_map(e.media_info@.take(k as int)).contains_key(filename@),
                    media_map(e.media_info@.take(k as int)).contains_key(filename@) ==> media_map(e.media_info@).contains_key(filename@),
                decreases k,
            {
                assert(e.media_info@.take(k as int).drop_last() =~= e.media_info@.take(k - 1));
                if chars_eq(&chars_of(e.media_info[k - 1].0.as_str()), &name) {
                    return Some(&e.media_info[k - 1].1);
                }
                k -= 1;
            }
            None
        },
        None => None,
    }
}


/// What a scan of a video file records: its size, the codecs of its first
/// video and audio streams, and its resolution.
#[derive(Debug)]
pub struct VideoProbe {
    pub file_size: Option<i64>,
    pub video_codec: Option<String>,
    pub audio_codec: Option<String>,
    pub resolution: Option<String>,
}

/// The codecs and size read from the streams so far.
pub struct ProbeState {
    pub video: Option<Seq<char>>,
    pub audio: Option<Seq<char>>,
    pub width: Option<i64>,
    pub height: Option<i64>,
}

/// The test "the stream is of kind `k`".
pub open spec fn kind_is(s: ProbeStream, k: Seq<char>) -> bool {
    opt_view(s.codec_type) == Some(k)
}

/// One more stream read: while no video codec is known, a video stream
/// gives the video codec, width and height; while no audio codec is
/// known, an audio stream gives it.
pub open spec fn probe_step(st: ProbeState, s: ProbeStream) -> ProbeState {
    if kind_is(s, "video"@) && st.video is None {
        ProbeState { video: opt_view(s.codec_name), width: s.width, height: s.height, ..st }
    } else if kind_is(s, "audio"@) && st.audio is None {
        ProbeState { audio: opt_view(s.codec_name), ..st }
    } else {
        st
    }
}

/// The state after reading the streams in order.
pub open spec fn probe_state(s: Seq<ProbeStream>) -> ProbeState
    decreases s.len(),
{
    if s.len() == 0 {
        ProbeState { video: None, audio: None, width: None, height: None }
    } else {
        probe_step(probe_state(s.drop_last()), s.last())
    }
}

/// `{width}x{height}` when both are known.
pub open spec fn resolution_of(width: Option<i64>, height: Option<i64>) -> Option<Seq<char>> {
    match (width, height) {
        (Some(w), Some(h)) => Some(signed_decimal(w as int) + "x"@ + signed_decimal(h as int)),
        _ => None,
    }
}

/// What a scan records of a probed video file.
pub fn video_probe(format: &ProbeFormat, streams: &Option<Vec<ProbeStream>>) -> (r: VideoProbe)
    ensures
        r.file_size == opt_number(format.size),
        ({
            let st = match streams {
                Some(ss) => probe_state(ss@),
                None => probe_state(Seq::empty()),
            };
            &&& opt_view(r.video_codec) == st.video
            &&& opt_view(r.audio_codec) == st.audio
            &&& opt_view(r.resolution) == resolution_of(st.width, st.height)
        }),
{
    let mut video: Option<String> = None;
    let mut audio: Option<String> = None;
    let mut width: Option<i64> = None;
    let mut height: Option<i64> = None;
    match streams {
        Some(ss) => {
            let mut k: usize = 0;
            while k < ss.len()
                invariant
                    k <= ss@.len(),
                    ({
                        let st = probe_state(ss@.take(k as int));
                        &&& opt_view(video) == st.video
                        &&& opt_view(audio) == st.audio
                        &&& width == st.width
                        &&& height == st.height
                    }),
                decreases ss@.len() - k,
            {
                let s = &ss[k];
                assert(ss@.take(k + 1).drop_last() =~= ss@.take(k as int));
                let is_video = match &s.codec_type {
                    Some(t) => chars_eq_str(&chars_of(t.as_str()), "video"),
                    None => false,
                };
                let is_audio = match &s.codec_type {
                    Some(t) => chars_eq_str(&chars_of(t.as_str()), "audio"),
                    None => false,
                };
                if is_video && video.is_none() {
                    video = copy_opt(&s.codec_name);
                    width = s.width;
                    height = s.height;
                } else if is_audio && audio.is_none() {
                    audio = copy_opt(&s.codec_name);
                }
                k += 1;
            }
            assert(ss@.take(k as int) =~= ss@);
        },
        None => {},
    }
    let resolution = match (width, height) {
        (Some(w), Some(h)) => {
            let mut v: Vec<char> = Vec::new();
            push_signed(&mut v, w);
            push_str(&mut v, "x");
            push_signed(&mut v, h);
            proof {
                reveal_strlit("x");
            }
            Some(string_of(&v))
        },
        _ => None,
    };
    VideoProbe { file_size: opt_number_of(&format.size), video_codec: video, audio_codec: audio, resolution }
}

/// The outcome of scanning a directory for videos.
#[derive(Debug)]
pub struct ScanResult {
    pub added: i64,
    pub skipped: i64,
    pub errors: Vec<String>,
}

impl ScanResult {
    /// Nothing scanned yet.
    pub fn new() -> (r: Self)
        ensures
            r.added == 0,
            r.skipped == 0,
            r.errors@.len() == 0,
    {
        ScanResult { added: 0, skipped: 0, errors: Vec::new() }
    }

    /// A video already in the library is skipped.
    pub fn skip(&mut self)
        requires
            old(self).skipped < i64::MAX,
        ensures
            final(self).skipped == old(self).skipped + 1,
            final(self).added == old(self).added,
            final(self).errors == old(self).errors,
    {
        self.skipped = self.skipped + 1;
    }

    /// A new video was added.
    pub fn add(&mut self)
        requires
            old(self).added < i64::MAX,
        ensures
            final(self).added == old(self).added + 1,
            final(self).skipped == old(self).skipped,
            final(self).errors == old(self).errors,
    {
        self.added = self.added + 1;
    }

    /// Adding the video at `path` failed with `message`: `{path}: {message}`
    /// is recorded.
    pub fn fail(&mut self, path: &str, message: &str)
        ensures
            final(self).added == old(self).added,
            final(self).skipped == old(self).skipped,
            final(self).errors@.len() == old(self).errors@.len() + 1,
            forall|i: int| 0 <= i < old(self).errors@.len() ==> final(self).errors@[i] == old(self).errors@[i],
            final(self).errors@.last()@ == path@ + ": "@ + message@,
    {
        let mut v: Vec<char> = Vec::new();
        push_str(&mut v, path);
        push_str(&mut v, ": ");
        push_str(&mut v, message);
        self.errors.push(string_of(&v));
    }
}
} // verus!
