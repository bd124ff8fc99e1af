//! Advanced SubStation Alpha (`.ass`) output: colours, timestamps and the
//! merged overlay document.
use vstd::prelude::*;
use vstd::utf8::{
    decode_utf8, encode_utf8, encode_utf8_decode_utf8, encode_utf8_valid_utf8, is_ascii_chars,
    is_char_boundary, is_char_boundary_iff_not_is_continuation_byte, valid_utf8_split,
};

use crate::text::{chars_of, decimal, push_all, push_decimal, push_padded, push_str, string_of, zero_pad};

verus! {

// ---------------------------------------------------------------- colours

/// `s` without its leading `#` characters (`str::trim_start_matches('#')`).
pub open spec fn strip_hashes(s: Seq<char>) -> Seq<char>
    decreases s.len(),
{
    if s.len() > 0 && s[0] == '#' {
        strip_hashes(s.drop_first())
    } else {
        s
    }
}

/// The ASCII upper-case form of `c`.
pub open spec fn ascii_upper(c: char) -> char {
    if 'a' <= c && c <= 'z' {
        ((c as u32) - 32) as char
    } else {
        c
    }
}

/// What `str::to_uppercase` returns for a string (Unicode case mapping).
pub uninterp spec fn unicode_upper(s: Seq<char>) -> Seq<char>;

/// `str::to_uppercase`: the Unicode upper-case form of `s`.  The contract
/// names the result and says that on ASCII text it maps `a`..`z` to
/// `A`..`Z` and keeps every other character.
#[verifier::external_body]
fn to_uppercase(s: &str) -> (r: String)
    ensures
        r@ == unicode_upper(s@),
        is_ascii_chars(s@) ==> r@ == s@.map_values(|c: char| ascii_upper(c)),
{
    s.to_uppercase()
}

/// The UTF-8 bytes of the colour digits, `#`s stripped.
pub open spec fn hex_bytes(hex: Seq<char>) -> Seq<u8> {
    encode_utf8(strip_hashes(hex))
}

/// The ASS colour `&H00BBGGRR` for a colour written `#RRGGBB`: the three
/// byte pairs of the digits reversed and the whole upper-cased.  Anything
/// whose digits are not six bytes long gives white, `&H00FFFFFF`.
pub open spec fn ass_color(hex: Seq<char>) -> Seq<char> {
    let hb = hex_bytes(hex);
    if hb.len() != 6 {
        seq!['&', 'H', '0', '0', 'F', 'F', 'F', 'F', 'F', 'F']
    } else {
        unicode_upper(
            seq!['&', 'H', '0', '0'] + decode_utf8(hb.subrange(4, 6)) + decode_utf8(
                hb.subrange(2, 4),
            ) + decode_utf8(hb.subrange(0, 2)),
        )
    }
}

/// The ASS colour of ASCII colour digits `d` (`#`s stripped): six digits
/// `RRGGBB` give `&H00BBGGRR` with `a`..`z` upper-cased, anything else
/// white.
pub open spec fn ascii_ass_color(d: Seq<char>) -> Seq<char> {
    if d.len() != 6 {
        "&H00FFFFFF"@
    } else {
        (seq!['&', 'H', '0', '0'] + d.subrange(4, 6) + d.subrange(2, 4) + d.subrange(0, 2)).map_values(
            |c: char| ascii_upper(c),
        )
    }
}

/// ASCII text encodes to the same bytes in every sub-range.
proof fn lemma_ascii_part_bytes(h: Seq<char>, a: int, b: int)
    requires
        is_ascii_chars(h),
        0 <= a <= b <= h.len(),
    ensures
        is_ascii_chars(h.subrange(a, b)),
        encode_utf8(h.subrange(a, b)) == encode_utf8(h).subrange(a, b),
{
    let p = h.subrange(a, b);
    assert(is_ascii_chars(p));
    vstd::utf8::is_ascii_chars_encode_utf8(h);
    vstd::utf8::is_ascii_chars_encode_utf8(p);
    assert(encode_utf8(p) =~= encode_utf8(h).subrange(a, b)) by {
        assert forall|i: int| 0 <= i < p.len() implies encode_utf8(p)[i] == encode_utf8(h).subrange(a, b)[i] by {
            assert(p[i] as u8 == encode_utf8(p)[i]);
            assert(h[a + i] as u8 == encode_utf8(h)[a + i]);
        }
    }
}

/// Converts `#RRGGBB` to the ASS colour `&H00BBGGRR`.  The digits are cut
/// into byte pairs, so six bytes whose pairs split a character are not
/// accepted.
pub fn hex_to_ass_color(hex: &str) -> (r: String)
    requires
        hex_bytes(hex@).len() == 6 ==> is_char_boundary(hex_bytes(hex@), 2) && is_char_boundary(
            hex_bytes(hex@),
            4,
        ),
    ensures
        r@ == ass_color(hex@),
        is_ascii_chars(hex@) ==> r@ == ascii_ass_color(strip_hashes(hex@)),
{
    let n = hex.unicode_len();
    let mut k: usize = 0;
    assert(hex@.subrange(0, n as int) =~= hex@);
    while k < n && hex.get_char(k) == '#'
        invariant
            k <= n,
            n == hex@.len(),
            strip_hashes(hex@) == strip_hashes(hex@.subrange(k as int, n as int)),
        decreases n - k,
    {
        assert(hex@.subrange(k as int, n as int).drop_first() =~= hex@.subrange(k + 1, n as int));
        k += 1;
    }
    let h = hex.substring_char(k, n);
    assert(strip_hashes(hex@) == h@);
    let ghost hb = hex_bytes(hex@);
    let hbytes = h.as_bytes();
    proof {
        if is_ascii_chars(hex@) {
            assert(is_ascii_chars(h@));
            vstd::utf8::is_ascii_chars_encode_utf8(h@);
        }
    }
    if hbytes.len() != 6 {
        proof {
            reveal_strlit("&H00FFFFFF");
        }
        return "&H00FFFFFF".to_string();
    }
    proof {
        encode_utf8_valid_utf8(h@);
        assert(hb == encode_utf8(h@));
        assert(hb.len() == 6);
        assert(vstd::utf8::valid_utf8(hb));
        assert(is_char_boundary(hb, 2));
        valid_utf8_split(hb, 2);
        is_char_boundary_iff_not_is_continuation_byte(hb, 4);
        is_char_boundary_iff_not_is_continuation_byte(hb.subrange(2, 6), 2);
        assert(hb.subrange(2, 6)[2] == hb[4]);
    }
    let (red, rest) = h.split_at(2);
    assert(encode_utf8(rest@) =~= hb.subrange(2, 6));
    let (green, blue) = rest.split_at(2);
    proof {
        encode_utf8_decode_utf8(red@);
        encode_utf8_decode_utf8(green@);
        encode_utf8_decode_utf8(blue@);
        assert(encode_utf8(red@) =~= hb.subrange(0, 2));
        assert(encode_utf8(green@) =~= hb.subrange(2, 4));
        assert(encode_utf8(blue@) =~= hb.subrange(4, 6));
    }
    let mut s = String::from_str("&H00");
    s.append(blue);
    s.append(green);
    s.append(red);
    proof {
        reveal_strlit("&H00");
        assert(s@ =~= seq!['&', 'H', '0', '0'] + blue@ + green@ + red@);
        if is_ascii_chars(hex@) {
            lemma_ascii_part_bytes(h@, 0, 2);
            lemma_ascii_part_bytes(h@, 2, 4);
            lemma_ascii_part_bytes(h@, 4, 6);
            encode_utf8_decode_utf8(h@.subrange(0, 2));
            encode_utf8_decode_utf8(h@.subrange(2, 4));
            encode_utf8_decode_utf8(h@.subrange(4, 6));
            assert(red@ == h@.subrange(0, 2));
            assert(green@ == h@.subrange(2, 4));
            assert(blue@ == h@.subrange(4, 6));
            assert(is_ascii_chars(s@));
        }
    }
    to_uppercase(s.as_str())
}

// ---------------------------------------------------------------- timestamps

/// The `H:MM:SS.cc` text of `ms >= 0` milliseconds (hours unpadded,
/// centiseconds truncated).
pub open spec fn ass_stamp_text(ms: int) -> Seq<char> {
    decimal((ms / 3_600_000) as nat) + seq![':'] + zero_pad(
        decimal(((ms % 3_600_000) / 60_000) as nat),
        2,
    ) + seq![':'] + zero_pad(decimal(((ms % 60_000) / 1_000) as nat), 2) + seq!['.'] + zero_pad(
        decimal(((ms % 1_000) / 10) as nat),
        2,
    )
}

/// Appends the `H:MM:SS.cc` text of `ms`, a negative time shown as zero.
pub fn push_ass_stamp(out: &mut Vec<char>, ms: i64)
    ensures
        final(out)@ == old(out)@ + ass_stamp_text(if ms < 0 {
            0
        } else {
            ms as int
        }),
{
    let t: u64 = if ms < 0 {
        0
    } else {
        ms as u64
    };
    let ghost start = out@;
    push_decimal(out, t / 3_600_000);
    out.push(':');
    push_padded(out, (t % 3_600_000) / 60_000, 2);
    out.push(':');
    push_padded(out, (t % 60_000) / 1_000, 2);
    out.push('.');
    push_padded(out, (t % 1_000) / 10, 2);
    assert(out@ =~= start + ass_stamp_text(t as int));
}

/// Formats milliseconds as an ASS timestamp `H:MM:SS.cc`; a negative time
/// is shown as zero.
pub fn format_ass_ts(ms: i64) -> (r: String)
    ensures
        r@ == ass_stamp_text(if ms < 0 {
            0
        } else {
            ms as int
        }),
{
    let mut out: Vec<char> = Vec::new();
    push_ass_stamp(&mut out, ms);
    string_of(&out)
}

} // verus!

verus! {

// ---------------------------------------------------------------- overlay document

/// One subtitle track of an overlay: its cues and how they are drawn.
pub struct OverlayTrack {
    pub cues: Vec<crate::srt::SubCue>,
    /// ASS numpad alignment (2 = bottom centre, 8 = top centre).
    pub alignment: u8,
    /// Vertical margin in script pixels.
    pub margin_v: u32,
    /// Colour as `#RRGGBB`.
    pub color: String,
    pub font_size: u32,
}

/// The colour of the track can be converted.
pub open spec fn color_ok(t: OverlayTrack) -> bool {
    hex_bytes(t.color@).len() == 6 ==> is_char_boundary(hex_bytes(t.color@), 2)
        && is_char_boundary(hex_bytes(t.color@), 4)
}

/// The style line of track `i`.
pub open spec fn style_line(i: int, t: OverlayTrack) -> Seq<char> {
    "Style: sub"@ + decimal(i as nat) + ",Sans,"@ + decimal(t.font_size as nat) + ","@ + ass_color(
        t.color@,
    ) + ",&H000000FF,&H00000000,&H80000000,0,0,0,0,100,100,0,0,1,2,1,"@ + decimal(
        t.alignment as nat,
    ) + ",20,20,"@ + decimal(t.margin_v as nat) + ",1\n"@
}

/// `t` clamped at zero.
pub open spec fn nonneg(t: int) -> int {
    if t < 0 {
        0
    } else {
        t
    }
}

/// The dialogue line of a cue of track `i`.
pub open spec fn dialogue_line(i: int, c: crate::srt::CueView) -> Seq<char> {
    "Dialogue: 0,"@ + ass_stamp_text(nonneg(c.start_ms)) + ","@ + ass_stamp_text(
        nonneg(c.end_ms),
    ) + ",sub"@ + decimal(i as nat) + ",,0,0,0,,"@ + c.text + "\n"@
}

/// The dialogue lines of the cues `cs` of track `i`, in order.
pub open spec fn dialogue_lines(i: int, cs: Seq<crate::srt::CueView>) -> Seq<char>
    decreases cs.len(),
{
    if cs.len() == 0 {
        seq![]
    } else {
        dialogue_lines(i, cs.drop_last()) + dialogue_line(i, cs.last())
    }
}

/// The style lines of the tracks, in order.
pub open spec fn style_lines(ts: Seq<OverlayTrack>) -> Seq<char>
    decreases ts.len(),
{
    if ts.len() == 0 {
        seq![]
    } else {
        style_lines(ts.drop_last()) + style_line(ts.len() - 1, ts.last())
    }
}

/// The dialogue lines of all tracks, track by track.
pub open spec fn event_lines(ts: Seq<OverlayTrack>) -> Seq<char>
    decreases ts.len(),
{
    if ts.len() == 0 {
        seq![]
    } else {
        event_lines(ts.drop_last()) + dialogue_lines(
            ts.len() - 1,
            crate::srt::cue_views(ts.last().cues@),
        )
    }
}

/// The overlay document: script info, the styles, then the events.
pub open spec fn overlay_document(ts: Seq<OverlayTrack>) -> Seq<char> {
    ass_header_text() + style_lines(ts) + ass_events_header_text() + event_lines(ts)
}

/// The script info and the style format line.
pub open spec fn ass_header_text() -> Seq<char> {
    "[Script Info]\nScriptType: v4.00+\nPlayResX: 1920\nPlayResY: 1080\n\n[V4+ Styles]\nFormat: Name,Fontname,Fontsize,PrimaryColour,SecondaryColour,OutlineColour,BackColour,Bold,Italic,Underline,StrikeOut,ScaleX,ScaleY,Spacing,Angle,BorderStyle,Outline,Shadow,Alignment,MarginL,MarginR,MarginV,Encoding\n"@
}

/// The events header.
pub open spec fn ass_events_header_text() -> Seq<char> {
    "\n[Events]\nFormat: Layer,Start,End,Style,Name,MarginL,MarginR,MarginV,Effect,Text\n"@
}

fn push_style_line(out: &mut Vec<char>, i: usize, t: &OverlayTrack)
    requires
        color_ok(*t),
    ensures
        final(out)@ == old(out)@ + style_line(i as int, *t),
{
    let ghost start = out@;
    push_str(out, "Style: sub");
    push_decimal(out, i as u64);
    push_str(out, ",Sans,");
    push_decimal(out, t.font_size as u64);
    push_str(out, ",");
    let color = hex_to_ass_color(t.color.as_str());
    let cc = chars_of(color.as_str());
    push_all(out, &cc);
    push_str(out, ",&H000000FF,&H00000000,&H80000000,0,0,0,0,100,100,0,0,1,2,1,");
    push_decimal(out, t.alignment as u64);
    push_str(out, ",20,20,");
    push_decimal(out, t.margin_v as u64);
    push_str(out, ",1\n");
    assert(out@ =~= start + style_line(i as int, *t));
}

fn push_dialogue_line(out: &mut Vec<char>, i: usize, c: &crate::srt::SubCue)
    ensures
        final(out)@ == old(out)@ + dialogue_line(i as int, c@),
{
    let ghost start = out@;
    push_str(out, "Dialogue: 0,");
    push_ass_stamp(out, c.start_ms);
    push_str(out, ",");
    push_ass_stamp(out, c.end_ms);
    push_str(out, ",sub");
    push_decimal(out, i as u64);
    push_str(out, ",,0,0,0,,");
    let tc = chars_of(c.text.as_str());
    push_all(out, &tc);
    push_str(out, "\n");
    assert(out@ =~= start + dialogue_line(i as int, c@));
}

/// Builds the ASS document that draws several subtitle tracks at once:
/// track `i` gets the style `sub{i}`, and every cue becomes a dialogue line
/// of that style.
pub fn render_overlay_ass(tracks: &Vec<OverlayTrack>) -> (r: String)
    requires
        forall|i: int| 0 <= i < tracks@.len() ==> color_ok(#[trigger] tracks@[i]),
    ensures
        r@ == overlay_document(tracks@),
{
    let mut styles: Vec<char> = Vec::new();
    let mut events: Vec<char> = Vec::new();
    let ghost ts = tracks@;
    let mut i: usize = 0;
    while i < tracks.len()
        invariant
            ts == tracks@,
            i <= ts.len(),
            forall|k: int| 0 <= k < ts.len() ==> color_ok(#[trigger] ts[k]),
            styles@ == style_lines(ts.take(i as int)),
            events@ == event_lines(ts.take(i as int)),
        decreases ts.len() - i,
    {
        let t = &tracks[i];
        assert(ts.take(i + 1).drop_last() =~= ts.take(i as int));
        push_style_line(&mut styles, i, t);
        let ghost cs = crate::srt::cue_views(t.cues@);
        let ghost ev0 = events@;
        let mut k: usize = 0;
        while k < t.cues.len()
            invariant
                k <= t.cues@.len(),
                cs == crate::srt::cue_views(t.cues@),
                events@ == ev0 + dialogue_lines(i as int, cs.take(k as int)),
            decreases t.cues@.len() - k,
        {
            assert(cs.take(k + 1).drop_last() =~= cs.take(k as int));
            push_dialogue_line(&mut events, i, &t.cues[k]);
            assert(events@ =~= ev0 + dialogue_lines(i as int, cs.take(k + 1)));
            k += 1;
        }
        assert(cs.take(t.cues@.len() as int) =~= cs);
        i += 1;
    }
    assert(ts.take(ts.len() as int) =~= ts);
    let mut out: Vec<char> = Vec::new();
    push_str(
        &mut out,
        "[Script Info]\nScriptType: v4.00+\nPlayResX: 1920\nPlayResY: 1080\n\n[V4+ Styles]\nFormat: Name,Fontname,Fontsize,PrimaryColour,SecondaryColour,OutlineColour,BackColour,Bold,Italic,Underline,StrikeOut,ScaleX,ScaleY,Spacing,Angle,BorderStyle,Outline,Shadow,Alignment,MarginL,MarginR,MarginV,Encoding\n",
    );
    push_all(&mut out, &styles);
    push_str(
        &mut out,
        "\n[Events]\nFormat: Layer,Start,End,Style,Name,MarginL,MarginR,MarginV,Effect,Text\n",
    );
    push_all(&mut out, &events);
    assert(out@ =~= overlay_document(tracks@));
    string_of(&out)
}


/// The dialogue lines of cues `cs` hold the line of cue `j` in one piece.
proof fn lemma_dialogue_lines_split(i: int, cs: Seq<crate::srt::CueView>, j: int) -> (pp: (Seq<char>, Seq<char>))
    requires
        0 <= j < cs.len(),
    ensures
        dialogue_lines(i, cs) == pp.0 + dialogue_line(i, cs[j]) + pp.1,
    decreases cs.len(),
{
    if j == cs.len() - 1 {
        (dialogue_lines(i, cs.drop_last()), seq![])
    } else {
        let q = lemma_dialogue_lines_split(i, cs.drop_last(), j);
        assert(cs.drop_last()[j] == cs[j]);
        let post = q.1 + dialogue_line(i, cs.last());
        assert(dialogue_lines(i, cs) =~= q.0 + dialogue_line(i, cs[j]) + post);
        (q.0, post)
    }
}

/// The event lines of tracks `ts` hold the dialogue lines of track `i` in
/// one piece.
proof fn lemma_event_lines_split(ts: Seq<OverlayTrack>, i: int) -> (pp: (Seq<char>, Seq<char>))
    requires
        0 <= i < ts.len(),
    ensures
        event_lines(ts) == pp.0 + dialogue_lines(i, crate::srt::cue_views(ts[i].cues@)) + pp.1,
    decreases ts.len(),
{
    if i == ts.len() - 1 {
        (event_lines(ts.drop_last()), seq![])
    } else {
        let q = lemma_event_lines_split(ts.drop_last(), i);
        assert(ts.drop_last()[i] == ts[i]);
        let post = q.1 + dialogue_lines(ts.len() - 1, crate::srt::cue_views(ts.last().cues@));
        assert(event_lines(ts) =~= q.0 + dialogue_lines(i, crate::srt::cue_views(ts[i].cues@)) + post);
        (q.0, post)
    }
}

/// The overlay document holds the dialogue line of cue `j` of track `i` in
/// one piece.
proof fn lemma_document_split(tracks: Seq<OverlayTrack>, i: int, j: int) -> (pp: (Seq<char>, Seq<char>))
    requires
        0 <= i < tracks.len(),
        0 <= j < tracks[i].cues@.len(),
    ensures
        overlay_document(tracks) == pp.0 + dialogue_line(i, tracks[i].cues@[j]@) + pp.1,
{
    let cs = crate::srt::cue_views(tracks[i].cues@);
    assert(cs[j] == tracks[i].cues@[j]@);
    let d = lemma_dialogue_lines_split(i, cs, j);
    let e = lemma_event_lines_split(tracks, i);
    let x = ass_header_text() + style_lines(tracks) + ass_events_header_text();
    let l = dialogue_line(i, cs[j]);
    assert(overlay_document(tracks) == x + event_lines(tracks));
    assert(event_lines(tracks) == e.0 + (d.0 + l + d.1) + e.1);
    assert(x + (e.0 + (d.0 + l + d.1) + e.1) =~= (x + e.0 + d.0) + l + (d.1 + e.1));
    (x + e.0 + d.0, d.1 + e.1)
}

/// Every cue of every track is drawn: the overlay document holds, at the
/// position returned, for cue `j` of track `i`, the line `Dialogue: 0,{start},{end},sub{i},,0,0,0,,{text}`
/// whose start and end are the cue's own start and end times (a negative
/// time as zero) written `H:MM:SS.cc`.
pub proof fn lemma_overlay_draws_each_cue(tracks: Seq<OverlayTrack>, r: Seq<char>, i: int, j: int) -> (p: int)
    requires
        r == overlay_document(tracks),
        0 <= i < tracks.len(),
        0 <= j < tracks[i].cues@.len(),
    ensures
        ({
            let c = tracks[i].cues@[j];
            let line = "Dialogue: 0,"@ + ass_stamp_text(if c.start_ms < 0 { 0 } else { c.start_ms as int }) + ","@
                + ass_stamp_text(if c.end_ms < 0 { 0 } else { c.end_ms as int }) + ",sub"@ + decimal(i as nat)
                + ",,0,0,0,,"@ + c.text@ + "\n"@;
            0 <= p && p + line.len() <= r.len() && r.subrange(p, p + line.len()) == line
        }),
{
    let c = tracks[i].cues@[j];
    let line = "Dialogue: 0,"@ + ass_stamp_text(if c.start_ms < 0 { 0 } else { c.start_ms as int }) + ","@
        + ass_stamp_text(if c.end_ms < 0 { 0 } else { c.end_ms as int }) + ",sub"@ + decimal(i as nat)
        + ",,0,0,0,,"@ + c.text@ + "\n"@;
    assert(dialogue_line(i, c@) == line);
    let pp = lemma_document_split(tracks, i, j);
    lemma_subrange_middle(pp.0, line, pp.1);
    let p = pp.0.len() as int;
    assert(r == pp.0 + line + pp.1);
    assert(r.len() == pp.0.len() + line.len() + pp.1.len());
    assert(r.subrange(p, p + line.len()) == line);
    assert(0 <= p && p + line.len() <= r.len());
    p
}

/// The style lines of tracks `ts` hold the style line of track `i` in one
/// piece.
proof fn lemma_style_lines_split(ts: Seq<OverlayTrack>, i: int) -> (pp: (Seq<char>, Seq<char>))
    requires
        0 <= i < ts.len(),
    ensures
        style_lines(ts) == pp.0 + style_line(i, ts[i]) + pp.1,
    decreases ts.len(),
{
    if i == ts.len() - 1 {
        (style_lines(ts.drop_last()), seq![])
    } else {
        let q = lemma_style_lines_split(ts.drop_last(), i);
        assert(ts.drop_last()[i] == ts[i]);
        let post = q.1 + style_line(ts.len() - 1, ts.last());
        assert(style_lines(ts) =~= q.0 + style_line(i, ts[i]) + post);
        (q.0, post)
    }
}

/// Every track has its own style: the overlay document holds, at the
/// position returned, the line `Style: sub{i},Sans,{font size},{colour},…`
/// of track `i`, with the track's font size, its colour as ASS colour, its
/// alignment and its vertical margin.
pub proof fn lemma_overlay_styles_each_track(tracks: Seq<OverlayTrack>, r: Seq<char>, i: int) -> (p: int)
    requires
        r == overlay_document(tracks),
        0 <= i < tracks.len(),
    ensures
        ({
            let t = tracks[i];
            let line = "Style: sub"@ + decimal(i as nat) + ",Sans,"@ + decimal(t.font_size as nat) + ","@ + ass_color(
                t.color@,
            ) + ",&H000000FF,&H00000000,&H80000000,0,0,0,0,100,100,0,0,1,2,1,"@ + decimal(t.alignment as nat)
                + ",20,20,"@ + decimal(t.margin_v as nat) + ",1\n"@;
            0 <= p && p + line.len() <= r.len() && r.subrange(p, p + line.len()) == line
        }),
{
    let t = tracks[i];
    let line = "Style: sub"@ + decimal(i as nat) + ",Sans,"@ + decimal(t.font_size as nat) + ","@ + ass_color(
        t.color@,
    ) + ",&H000000FF,&H00000000,&H80000000,0,0,0,0,100,100,0,0,1,2,1,"@ + decimal(t.alignment as nat)
        + ",20,20,"@ + decimal(t.margin_v as nat) + ",1\n"@;
    assert(style_line(i, t) == line);
    let q = lemma_style_lines_split(tracks, i);
    let pre = ass_header_text() + q.0;
    let post = q.1 + ass_events_header_text() + event_lines(tracks);
    assert(r =~= pre + line + post);
    lemma_subrange_middle(pre, line, post);
    let p = pre.len() as int;
    assert(r.len() == pre.len() + line.len() + post.len());
    p
}

/// The middle of three joined pieces.
proof fn lemma_subrange_middle(a: Seq<char>, b: Seq<char>, c: Seq<char>)
    ensures
        (a + b + c).subrange(a.len() as int, (a.len() + b.len()) as int) == b,
{
    assert((a + b + c).subrange(a.len() as int, (a.len() + b.len()) as int) =~= b);
}

} // verus!
