//! Subtitle search: turning a video file name into a search query, and the
//! language codes the subtitle services use.
use vstd::prelude::*;

use crate::text::{
    chars_eq_str, chars_of, chars_trim, join, push_all, split_words, string_of, trim, words,
};

verus! {

/// A token that is a year from 1900 to 2099: four ASCII digits starting
/// with `19` or `20`.
pub open spec fn is_year_token(t: Seq<char>) -> bool {
    &&& t.len() == 4
    &&& ((t[0] == '1' && t[1] == '9') || (t[0] == '2' && t[1] == '0'))
    &&& forall|k: int| 0 <= k < 4 ==> '0' <= #[trigger] t[k] && t[k] <= '9'
}

/// Whether `s` is a year from 1900 to 2099.
pub fn is_year(s: &str) -> (r: bool)
    ensures
        r == is_year_token(s@),
{
    let t = chars_of(s);
    is_year_chars(&t)
}

fn is_year_chars(t: &Vec<char>) -> (r: bool)
    ensures
        r == is_year_token(t@),
{
    if t.len() != 4 || !((t[0] == '1' && t[1] == '9') || (t[0] == '2' && t[1] == '0')) {
        return false;
    }
    let mut k: usize = 0;
    while k < 4
        invariant
            k <= 4,
            t@.len() == 4,
            forall|j: int| 0 <= j < k ==> '0' <= #[trigger] t@[j] && t@[j] <= '9',
        decreases 4 - k,
    {
        if !('0' <= t[k] && t[k] <= '9') {
            return false;
        }
        k += 1;
    }
    true
}

/// Release tags that end the title part of a file name.
pub open spec fn is_release_tag(t: Seq<char>) -> bool {
    ||| t == "1080p"@
    ||| t == "720p"@
    ||| t == "480p"@
    ||| t == "2160p"@
    ||| t == "BluRay"@
    ||| t == "BRRip"@
    ||| t == "WEB"@
    ||| t == "WEBRip"@
    ||| t == "WEB-DL"@
    ||| t == "HDTV"@
    ||| t == "DVDRip"@
    ||| t == "x264"@
    ||| t == "x265"@
    ||| t == "H264"@
    ||| t == "H265"@
    ||| t == "HEVC"@
    ||| t == "AAC"@
    ||| t == "AC3"@
    ||| t == "DTS"@
    ||| t == "REMUX"@
    ||| t == "YIFY"@
    ||| t == "YTS"@
}

fn release_tag(t: &Vec<char>) -> (r: bool)
    ensures
        r == is_release_tag(t@),
{
    chars_eq_str(t, "1080p") || chars_eq_str(t, "720p") || chars_eq_str(t, "480p")
        || chars_eq_str(t, "2160p") || chars_eq_str(t, "BluRay") || chars_eq_str(t, "BRRip")
        || chars_eq_str(t, "WEB") || chars_eq_str(t, "WEBRip") || chars_eq_str(t, "WEB-DL")
        || chars_eq_str(t, "HDTV") || chars_eq_str(t, "DVDRip") || chars_eq_str(t, "x264")
        || chars_eq_str(t, "x265") || chars_eq_str(t, "H264") || chars_eq_str(t, "H265")
        || chars_eq_str(t, "HEVC") || chars_eq_str(t, "AAC") || chars_eq_str(t, "AC3")
        || chars_eq_str(t, "DTS") || chars_eq_str(t, "REMUX") || chars_eq_str(t, "YIFY")
        || chars_eq_str(t, "YTS")
}

/// A separator of file-name words: `.`, `-`, `[`, `]`, `(` or `)`.
pub open spec fn is_name_separator(c: char) -> bool {
    c == '.' || c == '-' || c == '[' || c == ']' || c == '(' || c == ')'
}

/// The file name with every separator turned into a space.
pub open spec fn spaced(s: Seq<char>) -> Seq<char> {
    s.map_values(|c: char| if is_name_separator(c) { ' ' } else { c })
}

/// The title words among `toks[i..]`: words up to the first release tag,
/// years left out.
pub open spec fn title_words_from(toks: Seq<Seq<char>>, i: int) -> Seq<Seq<char>>
    decreases toks.len() - i,
{
    if i < 0 || i >= toks.len() {
        seq![]
    } else if is_release_tag(toks[i]) {
        seq![]
    } else if is_year_token(toks[i]) {
        title_words_from(toks, i + 1)
    } else {
        seq![toks[i]] + title_words_from(toks, i + 1)
    }
}

/// The search query for a file name: its title words joined by spaces, or,
/// when it has none, the whole spaced name trimmed.
pub open spec fn search_query(stem: Seq<char>) -> Seq<char> {
    let kept = title_words_from(words(spaced(stem)), 0);
    if kept.len() == 0 {
        trim(spaced(stem))
    } else {
        join(kept, seq![' '])
    }
}

/// Appends `t` to the words joined so far.
fn push_word(out: &mut Vec<char>, t: &Vec<char>, nonempty: bool, Ghost(kept): Ghost<Seq<Seq<char>>>)
    requires
        old(out)@ == join(kept, seq![' ']),
        nonempty == (kept.len() > 0),
    ensures
        final(out)@ == join(kept.push(t@), seq![' ']),
{
    if nonempty {
        out.push(' ');
    }
    push_all(out, t);
    assert(kept.push(t@).drop_last() =~= kept);
}

/// Builds a subtitle search query from a video file name (without its
/// extension): the title words before the first release tag, years
/// left out.
pub fn clean_query(stem: &str) -> (r: String)
    ensures
        r@ == search_query(stem@),
{
    let src = chars_of(stem);
    let mut s: Vec<char> = Vec::new();
    let mut i: usize = 0;
    while i < src.len()
        invariant
            i <= src@.len(),
            s@ == spaced(src@).take(i as int),
        decreases src@.len() - i,
    {
        let c = src[i];
        if c == '.' || c == '-' || c == '[' || c == ']' || c == '(' || c == ')' {
            s.push(' ');
        } else {
            s.push(c);
        }
        assert(s@ =~= spaced(src@).take(i + 1));
        i += 1;
    }
    assert(s@ =~= spaced(stem@));
    let toks = split_words(&s);
    let ghost ws = words(s@);
    let mut out: Vec<char> = Vec::new();
    let ghost mut kept: Seq<Seq<char>> = seq![];
    let mut n_kept: usize = 0;
    let mut k: usize = 0;
    while k < toks.len()
        invariant_except_break
            k <= toks@.len(),
            ws.len() == toks@.len(),
            forall|j: int| 0 <= j < toks@.len() ==> (#[trigger] toks@[j])@ == ws[j],
            kept + title_words_from(ws, k as int) == title_words_from(ws, 0),
            out@ == join(kept, seq![' ']),
            n_kept == kept.len(),
            n_kept <= k,
        ensures
            kept == title_words_from(ws, 0),
            out@ == join(kept, seq![' ']),
            n_kept == kept.len(),
        decreases toks@.len() - k,
    {
        let t = &toks[k];
        assert(t@ == ws[k as int]);
        if release_tag(t) {
            assert(kept =~= kept + title_words_from(ws, k as int));
            break;
        }
        if !is_year_chars(t) {
            push_word(&mut out, t, n_kept > 0, Ghost(kept));
            proof {
                assert(kept.push(t@) + title_words_from(ws, k + 1) =~= kept + title_words_from(
                    ws,
                    k as int,
                ));
                kept = kept.push(t@);
            }
            n_kept = n_kept + 1;
        }
        k += 1;
    }
    if k == toks.len() {
        assert(kept =~= kept + title_words_from(ws, k as int));
    }
    if n_kept == 0 {
        let t = chars_trim(&s);
        string_of(&t)
    } else {
        string_of(&out)
    }
}

/// The OpenSubtitles language code for an app language code; codes without
/// a mapping pass through unchanged.
pub open spec fn opensubtitles_lang(lang: Seq<char>) -> Seq<char> {
    if lang == "zh"@ || lang == "zh-CN"@ || lang == "chs"@ {
        "chi"@
    } else if lang == "en"@ {
        "eng"@
    } else if lang == "ja"@ {
        "jpn"@
    } else if lang == "ko"@ {
        "kor"@
    } else if lang == "fr"@ {
        "fre"@
    } else if lang == "de"@ {
        "ger"@
    } else if lang == "es"@ {
        "spa"@
    } else {
        lang
    }
}

/// Maps an app language code to the three-letter OpenSubtitles code.
pub fn to_opensubtitles_lang(lang: &str) -> (r: &str)
    ensures
        r@ == opensubtitles_lang(lang@),
{
    let l = chars_of(lang);
    if chars_eq_str(&l, "zh") || chars_eq_str(&l, "zh-CN") || chars_eq_str(&l, "chs") {
        "chi"
    } else if chars_eq_str(&l, "en") {
        "eng"
    } else if chars_eq_str(&l, "ja") {
        "jpn"
    } else if chars_eq_str(&l, "ko") {
        "kor"
    } else if chars_eq_str(&l, "fr") {
        "fre"
    } else if chars_eq_str(&l, "de") {
        "ger"
    } else if chars_eq_str(&l, "es") {
        "spa"
    } else {
        lang
    }
}

/// Reading title words from `i` up to a release tag at `k` reads only the
/// words before `k`.
proof fn lemma_title_words_stop(toks: Seq<Seq<char>>, k: int, i: int)
    requires
        0 <= i <= k < toks.len(),
        is_release_tag(toks[k]),
    ensures
        title_words_from(toks, i) == title_words_from(toks.take(k), i),
    decreases k - i,
{
    if i < k {
        lemma_title_words_stop(toks, k, i + 1);
        assert(toks.take(k)[i] == toks[i]);
    }
}

/// Every release tag of the list (1080p, 720p, 480p, 2160p, BluRay, BRRip,
/// WEB, WEBRip, WEB-DL, HDTV, DVDRip, x264, x265, H264, H265, HEVC, AAC,
/// AC3, DTS, REMUX, YIFY, YTS) ends the title: when the `k`-th word of the
/// file name is one of them, the title words and the query come from the
/// words before it alone.
pub proof fn lemma_release_tag_ends_title(stem: Seq<char>, k: int, r: Seq<char>)
    requires
        r == search_query(stem),
        0 <= k < words(spaced(stem)).len(),
        ({
            let t = words(spaced(stem))[k];
            ||| t == "1080p"@ ||| t == "720p"@ ||| t == "480p"@ ||| t == "2160p"@
            ||| t == "BluRay"@ ||| t == "BRRip"@ ||| t == "WEB"@ ||| t == "WEBRip"@
            ||| t == "WEB-DL"@ ||| t == "HDTV"@ ||| t == "DVDRip"@ ||| t == "x264"@
            ||| t == "x265"@ ||| t == "H264"@ ||| t == "H265"@ ||| t == "HEVC"@
            ||| t == "AAC"@ ||| t == "AC3"@ ||| t == "DTS"@ ||| t == "REMUX"@
            ||| t == "YIFY"@ ||| t == "YTS"@
        }),
    ensures
        title_words_from(words(spaced(stem)), 0) == title_words_from(words(spaced(stem)).take(k), 0),
        forall|w: Seq<char>|
            #[trigger] title_words_from(words(spaced(stem)), 0).contains(w) ==> words(spaced(stem)).take(k).contains(w),
        title_words_from(words(spaced(stem)).take(k), 0).len() > 0 ==> r == join(
            title_words_from(words(spaced(stem)).take(k), 0),
            seq![' '],
        ),
{
    let toks = words(spaced(stem));
    lemma_title_words_stop(toks, k, 0);
    lemma_title_words_within(toks.take(k), 0);
}

/// The title words read from `i` are words of `toks`.
proof fn lemma_title_words_within(toks: Seq<Seq<char>>, i: int)
    requires
        0 <= i,
    ensures
        forall|w: Seq<char>| #[trigger] title_words_from(toks, i).contains(w) ==> toks.contains(w),
    decreases toks.len() - i,
{
    if 0 <= i < toks.len() {
        lemma_title_words_within(toks, i + 1);
        assert forall|w: Seq<char>| #[trigger] title_words_from(toks, i).contains(w) implies toks.contains(w) by {
            let rest = title_words_from(toks, i + 1);
            if is_release_tag(toks[i]) {
                assert(title_words_from(toks, i).len() == 0);
            } else if is_year_token(toks[i]) {
                assert(title_words_from(toks, i) == rest);
            } else {
                assert(title_words_from(toks, i) == seq![toks[i]] + rest);
                let j = choose|j: int| 0 <= j < title_words_from(toks, i).len() && title_words_from(toks, i)[j] == w;
                if j > 0 {
                    assert(rest[j - 1] == w);
                    assert(rest.contains(w));
                } else {
                    assert(toks[i] == w);
                }
            }
        }
    }
}

/// The title words read from `i` are neither release tags nor years.
proof fn lemma_title_words_kind(toks: Seq<Seq<char>>, i: int)
    requires
        0 <= i,
    ensures
        forall|w: Seq<char>|
            #[trigger] title_words_from(toks, i).contains(w) ==> !is_release_tag(w) && !is_year_token(w),
    decreases toks.len() - i,
{
    if 0 <= i < toks.len() {
        lemma_title_words_kind(toks, i + 1);
        assert forall|w: Seq<char>| #[trigger] title_words_from(toks, i).contains(w) implies !is_release_tag(w)
            && !is_year_token(w) by {
            let rest = title_words_from(toks, i + 1);
            if !is_release_tag(toks[i]) && !is_year_token(toks[i]) {
                assert(title_words_from(toks, i) == seq![toks[i]] + rest);
                let j = choose|j: int| 0 <= j < title_words_from(toks, i).len() && title_words_from(toks, i)[j] == w;
                if j > 0 {
                    assert(rest[j - 1] == w);
                    assert(rest.contains(w));
                }
            } else if is_year_token(toks[i]) && !is_release_tag(toks[i]) {
                assert(title_words_from(toks, i) == rest);
            }
        }
    }
}

/// The title words of a subtitle query are words of the file name that are
/// neither a year from 1900 to 2099 nor a release tag of the list.
pub proof fn lemma_query_words_are_title_words(stem: Seq<char>)
    ensures
        forall|w: Seq<char>|
            #[trigger] title_words_from(words(spaced(stem)), 0).contains(w) ==> {
                &&& words(spaced(stem)).contains(w)
                &&& !(w.len() == 4 && ((w[0] == '1' && w[1] == '9') || (w[0] == '2' && w[1] == '0')) && (forall|k: int|
                    0 <= k < 4 ==> '0' <= #[trigger] w[k] && w[k] <= '9'))
                &&& !(w == "1080p"@ || w == "720p"@ || w == "480p"@ || w == "2160p"@ || w == "BluRay"@ || w == "BRRip"@
                    || w == "WEB"@ || w == "WEBRip"@ || w == "WEB-DL"@ || w == "HDTV"@ || w == "DVDRip"@ || w == "x264"@
                    || w == "x265"@ || w == "H264"@ || w == "H265"@ || w == "HEVC"@ || w == "AAC"@ || w == "AC3"@
                    || w == "DTS"@ || w == "REMUX"@ || w == "YIFY"@ || w == "YTS"@)
            },
{
    let toks = words(spaced(stem));
    lemma_title_words_within(toks, 0);
    lemma_title_words_kind(toks, 0);
}

} // verus!
