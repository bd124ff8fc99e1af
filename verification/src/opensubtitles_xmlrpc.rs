//! The OpenSubtitles XML-RPC client's text handling: search queries,
//! reading values out of responses, and cleaning download links.
use vstd::prelude::*;
use std::io::Read;

use crate::text::{
    chars_eq_str, chars_of, chars_trim, ends_with, ends_with_exec, join, occurs_at, occurs_at_exec,
    split_words, string_of, trim, words,
};

verus! {

/// Where the subtitles are searched.
#[derive(Debug, Clone, Copy, PartialEq, Eq)]
pub enum SubSource {
    OpenSubtitles,
    All,
}

/// A subtitle file found by a search.
#[derive(Debug)]
pub struct SubtitleResult {
    pub filename: String,
    pub download_url: String,
}

// ---------------------------------------------------------------- search query

/// Release tags that end the title part of a file name.
pub open spec fn is_release_tag(t: Seq<char>) -> bool {
    ||| t == "1080p"@
    ||| t == "720p"@
    ||| t == "2160p"@
    ||| t == "BluRay"@
    ||| t == "WEB"@
    ||| t == "x264"@
    ||| t == "x265"@
    ||| t == "AAC"@
}

fn release_tag(t: &Vec<char>) -> (r: bool)
    ensures
        r == is_release_tag(t@),
{
    chars_eq_str(t, "1080p") || chars_eq_str(t, "720p") || chars_eq_str(t, "2160p")
        || chars_eq_str(t, "BluRay") || chars_eq_str(t, "WEB") || chars_eq_str(t, "x264")
        || chars_eq_str(t, "x265") || chars_eq_str(t, "AAC")
}

/// A separator of file-name words: `.`, `-`, `[` or `]`.
pub open spec fn is_name_separator(c: char) -> bool {
    c == '.' || c == '-' || c == '[' || c == ']'
}

/// The file name with every separator turned into a space.
pub open spec fn spaced(s: Seq<char>) -> Seq<char> {
    s.map_values(|c: char| if is_name_separator(c) { ' ' } else { c })
}

/// The words of `toks[i..]` before the first release tag.
pub open spec fn words_before_tag(toks: Seq<Seq<char>>, i: int) -> Seq<Seq<char>>
    decreases toks.len() - i,
{
    if i < 0 || i >= toks.len() || is_release_tag(toks[i]) {
        seq![]
    } else {
        seq![toks[i]] + words_before_tag(toks, i + 1)
    }
}

/// The search query for a file name: the words before the first release tag
/// joined by spaces, or, when there are none, the whole spaced name trimmed.
pub open spec fn search_query(stem: Seq<char>) -> Seq<char> {
    let kept = words_before_tag(words(spaced(stem)), 0);
    if kept.len() == 0 {
        trim(spaced(stem))
    } else {
        join(kept, seq![' '])
    }
}

/// Builds a search query from a video file name (without its extension):
/// the words before the first release tag.
pub fn clean_query(stem: &str) -> (r: String)
    ensures
        r@ == search_query(stem@),
{
    let src = chars_of(stem);
    let mut s: Vec<char> = Vec::new();
    let mut i: usize = 0;
    while i < src.len()
        invariant
            i <= src@.len(),
            s@ == spaced(src@).take(i as int),
        decreases src@.len() - i,
    {
        let c = src[i];
        if c == '.' || c == '-' || c == '[' || c == ']' {
            s.push(' ');
        } else {
            s.push(c);
        }
        assert(s@ =~= spaced(src@).take(i + 1));
        i += 1;
    }
    assert(s@ =~= spaced(stem@));
    let toks = split_words(&s);
    let ghost ws = words(s@);
    let mut k: usize = 0;
    while k < toks.len() && !release_tag(&toks[k])
        invariant
            k <= toks@.len(),
            ws.len() == toks@.len(),
            forall|j: int| 0 <= j < toks@.len() ==> (#[trigger] toks@[j])@ == ws[j],
            forall|j: int| 0 <= j < k ==> !is_release_tag(#[trigger] ws[j]),
        decreases toks@.len() - k,
    {
        k += 1;
    }
    proof {
        lemma_words_before_tag(ws, 0, k as int);
    }
    if k == 0 {
        let t = chars_trim(&s);
        string_of(&t)
    } else {
        let mut sep: Vec<char> = Vec::new();
        sep.push(' ');
        assert(sep@ =~= seq![' ']);
        let out = crate::text::join_range(&toks, 0, k, &sep);
        assert(crate::text::views(toks@).subrange(0, k as int) =~= ws.subrange(0, k as int));
        string_of(&out)
    }
}

/// The words before the first tag are the prefix of words up to it.
proof fn lemma_words_before_tag(ws: Seq<Seq<char>>, i: int, k: int)
    requires
        0 <= i <= k <= ws.len(),
        forall|j: int| 0 <= j < k ==> !is_release_tag(#[trigger] ws[j]),
        k == ws.len() || is_release_tag(ws[k]),
    ensures
        words_before_tag(ws, i) == ws.subrange(i, k),
    decreases k - i,
{
    if i < k {
        lemma_words_before_tag(ws, i + 1, k);
        assert(seq![ws[i]] + ws.subrange(i + 1, k) =~= ws.subrange(i, k));
    } else {
        assert(ws.subrange(i, k) =~= Seq::<Seq<char>>::empty());
    }
}

// ---------------------------------------------------------------- XML-RPC values

/// The first position at or after `i` that holds `c` (or the end).
pub open spec fn next_char(s: Seq<char>, i: int, c: char) -> int
    decreases s.len() - i,
{
    if i < 0 || i >= s.len() || s[i] == c {
        i
    } else {
        next_char(s, i + 1, c)
    }
}

/// The text that opens the value of member `name`.
pub open spec fn member_prefix(name: Seq<char>) -> Seq<char> {
    "<name>"@ + name + "</name><value><string>"@
}

/// A string member `name` whose value is not empty and holds no `<`
/// starts at `p`.
pub open spec fn member_at(s: Seq<char>, p: int, name: Seq<char>) -> bool {
    let v = p + member_prefix(name).len();
    let e = next_char(s, v, '<');
    &&& occurs_at(s, p, member_prefix(name))
    &&& e > v
    &&& occurs_at(s, e, "</string>"@)
}

/// The value of the member that starts at `p`.
pub open spec fn member_value(s: Seq<char>, p: int, name: Seq<char>) -> Seq<char> {
    let v = p + member_prefix(name).len();
    s.subrange(v, next_char(s, v, '<'))
}

/// Where the member that starts at `p` ends.
pub open spec fn member_end(s: Seq<char>, p: int, name: Seq<char>) -> int {
    next_char(s, p + member_prefix(name).len(), '<') + "</string>"@.len()
}

/// The leftmost member `name` at or after `p`.
pub open spec fn first_member(s: Seq<char>, p: int, name: Seq<char>) -> Option<int>
    decreases s.len() - p,
{
    if p < 0 || p >= s.len() {
        None
    } else if member_at(s, p, name) {
        Some(p)
    } else {
        first_member(s, p + 1, name)
    }
}

/// The values of all members `name` at or after `p`, taken left to right
/// without overlap.
pub open spec fn member_values(s: Seq<char>, p: int, name: Seq<char>) -> Seq<Seq<char>>
    decreases s.len() - p,
{
    if p < 0 || p >= s.len() {
        seq![]
    } else if member_at(s, p, name) {
        proof {
            lemma_next_char_bounds(s, p + member_prefix(name).len(), '<');
        }
        seq![member_value(s, p, name)] + member_values(s, member_end(s, p, name), name)
    } else {
        member_values(s, p + 1, name)
    }
}

/// The next `c` at or after `i` lies between `i` and the end.
pub proof fn lemma_next_char_bounds(s: Seq<char>, i: int, c: char)
    ensures
        next_char(s, i, c) >= i,
        0 <= i <= s.len() ==> next_char(s, i, c) <= s.len(),
        0 <= i ==> next_char(s, i, c) < s.len() ==> s[next_char(s, i, c)] == c,
    decreases s.len() - i,
{
    if 0 <= i < s.len() && s[i] != c {
        lemma_next_char_bounds(s, i + 1, c);
    }
}

/// The first position at or after `i` holding `c`, or the end.
fn next_char_exec(s: &Vec<char>, i: usize, c: char) -> (r: usize)
    requires
        i <= s@.len(),
    ensures
        r == next_char(s@, i as int, c),
        i <= r <= s@.len(),
{
    let mut j = i;
    while j < s.len() && s[j] != c
        invariant
            i <= j <= s@.len(),
            next_char(s@, i as int, c) == next_char(s@, j as int, c),
        decreases s@.len() - j,
    {
        j += 1;
    }
    j
}

/// Whether a member starts at `p`; when it does, where its value ends.
fn member_at_exec(s: &Vec<char>, p: usize, prefix: &Vec<char>, close: &Vec<char>, Ghost(name): Ghost<Seq<char>>) -> (r: Option<usize>)
    requires
        prefix@ == member_prefix(name),
        close@ == "</string>"@,
        p < s@.len(),
    ensures
        match r {
            Some(e) => member_at(s@, p as int, name) && e == next_char(
                s@,
                p + member_prefix(name).len(),
                '<',
            ),
            None => !member_at(s@, p as int, name),
        },
{
    if !occurs_at_exec(s, p, prefix) {
        return None;
    }
    assert(p + prefix@.len() <= s.len());
    let v = p + prefix.len();
    let e = next_char_exec(s, v, '<');
    if e > v && occurs_at_exec(s, e, close) {
        Some(e)
    } else {
        None
    }
}

/// The value of string member `member_name` in an XML-RPC response, if any.
/// The name is matched as plain text.
pub fn extract_xmlrpc_string(xml: &str, member_name: &str) -> (r: Option<String>)
    ensures
        match first_member(xml@, 0, member_name@) {
            Some(p) => r matches Some(v) && v@ == member_value(xml@, p, member_name@),
            None => r is None,
        },
{
    let s = chars_of(xml);
    let mut prefix: Vec<char> = Vec::new();
    crate::text::push_str(&mut prefix, "<name>");
    crate::text::push_str(&mut prefix, member_name);
    crate::text::push_str(&mut prefix, "</name><value><string>");
    let close = chars_of("</string>");
    let mut p: usize = 0;
    while p < s.len()
        invariant
            s@ == xml@,
            prefix@ == member_prefix(member_name@),
            close@ == "</string>"@,
            p <= s@.len(),
            first_member(s@, 0, member_name@) == first_member(s@, p as int, member_name@),
        decreases s@.len() - p,
    {
        match member_at_exec(&s, p, &prefix, &close, Ghost(member_name@)) {
            Some(e) => {
                let v = p + prefix.len();
                let mut out: Vec<char> = Vec::new();
                let mut k = v;
                while k < e
                    invariant
                        v <= k <= e <= s@.len(),
                        out@ == s@.subrange(v as int, k as int),
                    decreases e - k,
                {
                    out.push(s[k]);
                    assert(out@ =~= s@.subrange(v as int, k + 1));
                    k += 1;
                }
                return Some(string_of(&out));
            },
            None => {
                p += 1;
            },
        }
    }
    None
}

/// The values of every member `name`, left to right.
fn member_values_exec(s: &Vec<char>, name: &str) -> (r: Vec<Vec<char>>)
    ensures
        crate::text::views(r@) == member_values(s@, 0, name@),
{
    let mut prefix: Vec<char> = Vec::new();
    crate::text::push_str(&mut prefix, "<name>");
    crate::text::push_str(&mut prefix, name);
    crate::text::push_str(&mut prefix, "</name><value><string>");
    let close = chars_of("</string>");
    proof {
        reveal_strlit("</string>");
    }
    let mut out: Vec<Vec<char>> = Vec::new();
    let mut p: usize = 0;
    while p < s.len()
        invariant
            prefix@ == member_prefix(name@),
            close@ == "</string>"@,
            close@.len() == 9,
            crate::text::views(out@) + member_values(s@, p as int, name@) == member_values(
                s@,
                0,
                name@,
            ),
        decreases s@.len() - p,
    {
        let ghost before = crate::text::views(out@);
        match member_at_exec(s, p, &prefix, &close, Ghost(name@)) {
            Some(e) => {
                let v = p + prefix.len();
                let mut val: Vec<char> = Vec::new();
                let mut k = v;
                while k < e
                    invariant
                        v <= k <= e <= s@.len(),
                        val@ == s@.subrange(v as int, k as int),
                    decreases e - k,
                {
                    val.push(s[k]);
                    assert(val@ =~= s@.subrange(v as int, k + 1));
                    k += 1;
                }
                out.push(val);
                assert(crate::text::views(out@) =~= before.push(member_value(s@, p as int, name@)));
                assert(crate::text::views(out@) + member_values(s@, (e + 9) as int, name@) =~= before
                    + member_values(s@, p as int, name@));
                p = e + 9;
            },
            None => {
                p += 1;
            },
        }
    }
    assert(member_values(s@, p as int, name@) =~= Seq::<Seq<char>>::empty());
    out
}

} // verus!

verus! {


/// The (file name, link) pairs of the search results `names[i..]` and
/// `links[i..]`, paired in order, keeping only `.srt` files.
pub open spec fn srt_results(names: Seq<Seq<char>>, links: Seq<Seq<char>>, i: int) -> Seq<
    (Seq<char>, Seq<char>),
>
    decreases names.len() - i,
{
    if i < 0 || i >= names.len() || i >= links.len() {
        seq![]
    } else if ends_with(names[i], ".srt"@) {
        seq![(names[i], links[i])] + srt_results(names, links, i + 1)
    } else {
        srt_results(names, links, i + 1)
    }
}

/// The (file name, link) pairs of a result list.
pub open spec fn result_views(r: Seq<SubtitleResult>) -> Seq<(Seq<char>, Seq<char>)> {
    r.map_values(|x: SubtitleResult| (x.filename@, x.download_url@))
}

/// Reads the subtitle files out of a `SearchSubtitles` response: the n-th
/// file name goes with the n-th download link, and only `.srt` files are
/// kept.  It never fails.
pub fn parse_xmlrpc_search_results(xml: &str) -> (r: Result<Vec<SubtitleResult>, crate::error::SubError>)
    ensures
        r matches Ok(v) && result_views(v@) == srt_results(
            member_values(xml@, 0, "SubFileName"@),
            member_values(xml@, 0, "SubDownloadLink"@),
            0,
        ),
{
    let s = chars_of(xml);
    let names = member_values_exec(&s, "SubFileName");
    let links = member_values_exec(&s, "SubDownloadLink");
    let ghost ns = crate::text::views(names@);
    let ghost ls = crate::text::views(links@);
    let suffix = chars_of(".srt");
    let mut out: Vec<SubtitleResult> = Vec::new();
    let mut i: usize = 0;
    while i < names.len() && i < links.len()
        invariant
            ns == crate::text::views(names@),
            ls == crate::text::views(links@),
            suffix@ == ".srt"@,
            i <= names@.len(),
            result_views(out@) + srt_results(ns, ls, i as int) == srt_results(ns, ls, 0),
        decreases names@.len() - i,
    {
        let ghost before = result_views(out@);
        assert(ns[i as int] == names@[i as int]@);
        if ends_with_exec(&names[i], &suffix) {
            assert(ls[i as int] == links@[i as int]@);
            let item = SubtitleResult {
                filename: string_of(&names[i]),
                download_url: string_of(&links[i]),
            };
            out.push(item);
            assert(result_views(out@) =~= before.push((ns[i as int], ls[i as int])));
        }
        assert(result_views(out@) + srt_results(ns, ls, i + 1) =~= before + srt_results(
            ns,
            ls,
            i as int,
        ));
        i += 1;
    }
    assert(srt_results(ns, ls, i as int) =~= Seq::<(Seq<char>, Seq<char>)>::empty());
    Ok(out)
}

// ---------------------------------------------------------------- download links

/// A session segment `/sid-…` (up to the next `/` or the end) starts at `p`.
pub open spec fn sid_at(u: Seq<char>, p: int) -> bool {
    occurs_at(u, p, "/sid-"@) && next_char(u, p + 5, '/') > p + 5
}

/// The leftmost session segment at or after `p`.
pub open spec fn first_sid(u: Seq<char>, p: int) -> Option<int>
    decreases u.len() - p,
{
    if p < 0 || p >= u.len() {
        None
    } else if sid_at(u, p) {
        Some(p)
    } else {
        first_sid(u, p + 1)
    }
}

/// The link without its first session segment.
pub open spec fn without_session(u: Seq<char>) -> Seq<char> {
    match first_sid(u, 0) {
        Some(p) => u.subrange(0, p) + u.subrange(next_char(u, p + 5, '/'), u.len() as int),
        None => u,
    }
}

/// Removes the session segment `/sid-…` that OpenSubtitles puts into
/// download links (it makes the download a members-only one).
pub fn strip_session_from_url(url: &str) -> (r: String)
    ensures
        r@ == without_session(url@),
{
    let u = chars_of(url);
    let lit = chars_of("/sid-");
    proof {
        reveal_strlit("/sid-");
    }
    let mut p: usize = 0;
    while p < u.len()
        invariant
            u@ == url@,
            lit@ == "/sid-"@,
            lit@.len() == 5,
            p <= u@.len(),
            first_sid(u@, 0) == first_sid(u@, p as int),
        decreases u@.len() - p,
    {
        if occurs_at_exec(&u, p, &lit) {
            assert(p + 5 <= u.len());
            let e = next_char_exec(&u, p + 5, '/');
            if e > p + 5 {
                let mut out: Vec<char> = Vec::new();
                let mut k: usize = 0;
                while k < u.len()
                    invariant
                        p < e <= u@.len(),
                        k <= u@.len(),
                        out@ == u@.subrange(0, if k < p { k as int } else { p as int }) + (if k < e {
                            Seq::<char>::empty()
                        } else {
                            u@.subrange(e as int, k as int)
                        }),
                    decreases u@.len() - k,
                {
                    if k < p || k >= e {
                        out.push(u[k]);
                    }
                    assert(out@ =~= u@.subrange(0, if k + 1 < p { k + 1 } else { p as int }) + (if k
                        + 1 < e {
                        Seq::<char>::empty()
                    } else {
                        u@.subrange(e as int, k + 1)
                    }));
                    k += 1;
                }
                assert(sid_at(u@, p as int));
                return string_of(&out);
            }
        }
        p += 1;
    }
    string_of(&u)
}


// ---------------------------------------------------------------- downloaded bytes

/// What `flate2::read::GzDecoder` decodes from `data` read to its end: the
/// decompressed bytes, or none when decoding fails.
pub uninterp spec fn gunzip_of(data: Seq<u8>) -> Option<Seq<u8>>;

/// Decompresses gzip data (`flate2::read::GzDecoder::new`, then
/// `read_to_end`).  The decoded bytes are named; the text of a decoding
/// error is the error's `Display` and is not stated.
#[verifier::external_body]
fn gunzip(data: &[u8]) -> (r: Result<Vec<u8>, String>)
    ensures
        r is Ok <==> gunzip_of(data@) is Some,
        r matches Ok(v) ==> gunzip_of(data@) == Some(v@),
{
    let mut out: Vec<u8> = Vec::new();
    match flate2::read::GzDecoder::new(data).read_to_end(&mut out) {
        Ok(_) => Ok(out),
        Err(e) => Err(e.to_string()),
    }
}

/// The data starts with the gzip magic bytes `1f 8b`.
pub open spec fn is_gzip(data: Seq<u8>) -> bool {
    data.len() >= 2 && data[0] == 0x1f && data[1] == 0x8b
}

/// The subtitle saved from downloaded bytes: gzip data is decompressed
/// (a failure is `InvalidSrt`), anything else is kept as it is.
pub fn subtitle_body(bytes: &[u8]) -> (r: Result<Vec<u8>, crate::error::SubError>)
    ensures
        is_gzip(bytes@) ==> match gunzip_of(bytes@) {
            Some(w) => r matches Ok(v) && v@ == w,
            None => r matches Err(crate::error::SubError::InvalidSrt(_)),
        },
        !is_gzip(bytes@) ==> (r matches Ok(v) && v@ == bytes@),
{
    if bytes.len() >= 2 && bytes[0] == 0x1f && bytes[1] == 0x8b {
        match gunzip(bytes) {
            Ok(v) => Ok(v),
            Err(e) => Err(crate::error::SubError::InvalidSrt(e)),
        }
    } else {
        let mut v: Vec<u8> = Vec::new();
        let mut i: usize = 0;
        while i < bytes.len()
            invariant
                i <= bytes@.len(),
                v@ == bytes@.take(i as int),
            decreases bytes@.len() - i,
        {
            v.push(bytes[i]);
            assert(bytes@.take(i + 1) =~= bytes@.take(i as int).push(bytes@[i as int]));
            i += 1;
        }
        assert(bytes@.take(i as int) =~= bytes@);
        Ok(v)
    }
}

} // verus!
