//! SubRip (`.srt`) cue parsing and timestamp formatting.
use vstd::prelude::*;

use crate::sort::{key_of, lemma_stable_sort_views, lex_le, stable_sort, is_stable_sort, SortKey};
use crate::text::{
    chars_blank, chars_of, is_blank, is_white_space, is_ws, join, join_range, pieces, pieces_from, split_char,
    string_of, views, zero_pad, decimal, digit_char, push_padded,
};

verus! {

// ---------------------------------------------------------------- the timestamp grammar

/// An ASCII decimal digit.
pub open spec fn is_ascii_digit(c: char) -> bool {
    '0' <= c && c <= '9'
}

/// A character of the digit class `\d` that the timestamp patterns use.
pub open spec fn is_digit_class(c: char) -> bool {
    is_ascii_digit(c)
}

/// Executable test for [`is_digit_class`].
pub fn digit_class(c: char) -> (r: bool)
    ensures
        r == is_digit_class(c),
{
    '0' <= c && c <= '9'
}

/// `n` characters of the digit class start at `p`.
pub open spec fn digit_run(l: Seq<char>, p: int, n: int) -> bool {
    &&& 0 <= p
    &&& p + n <= l.len()
    &&& forall|k: int| p <= k < p + n ==> is_digit_class(#[trigger] l[k])
}

/// The `n` characters at `p` read as an ASCII decimal numeral.
pub open spec fn ascii_value(l: Seq<char>, p: int, n: nat) -> int
    decreases n,
{
    if n == 0 {
        0
    } else {
        ascii_value(l, p, (n - 1) as nat) * 10 + (l[p + n - 1] as int - 48)
    }
}

/// The number that a field of `n` digits at `p` stands for: its decimal
/// value when the digits are ASCII, and 0 otherwise (the value that a
/// failed `str::parse::<i64>` falls back to).
pub open spec fn field_value(l: Seq<char>, p: int, n: nat) -> int {
    if forall|k: int| p <= k < p + n ==> is_ascii_digit(#[trigger] l[k]) {
        ascii_value(l, p, n)
    } else {
        0
    }
}

/// A timestamp `HH:MM:SS,mmm` starts at `p`; with `lenient`, `.` may stand
/// in place of `,`.
pub open spec fn stamp_at(l: Seq<char>, p: int, lenient: bool) -> bool {
    &&& digit_run(l, p, 2)
    &&& l[p + 2] == ':'
    &&& digit_run(l, p + 3, 2)
    &&& l[p + 5] == ':'
    &&& digit_run(l, p + 6, 2)
    &&& (l[p + 8] == ',' || (lenient && l[p + 8] == '.'))
    &&& digit_run(l, p + 9, 3)
}

/// The milliseconds that the timestamp at `p` stands for.
pub open spec fn stamp_ms(l: Seq<char>, p: int) -> int {
    field_value(l, p, 2) * 3_600_000 + field_value(l, p + 3, 2) * 60_000 + field_value(l, p + 6, 2)
        * 1_000 + field_value(l, p + 9, 3)
}

/// The first position at or after `i` that is not white space.
pub open spec fn skip_ws(l: Seq<char>, i: int) -> int
    decreases l.len() - i,
{
    if 0 <= i < l.len() && is_ws(l[i]) {
        skip_ws(l, i + 1)
    } else {
        i
    }
}

/// `-->` starts at `q`.
pub open spec fn arrow_at(l: Seq<char>, q: int) -> bool {
    0 <= q && q + 3 <= l.len() && l[q] == '-' && l[q + 1] == '-' && l[q + 2] == '>'
}

/// Where the second timestamp of a timing line whose first timestamp is at
/// `p` starts.
pub open spec fn end_stamp_pos(l: Seq<char>, p: int) -> int {
    skip_ws(l, skip_ws(l, p + 12) + 3)
}

/// A timing `start --> end` starts at `p`, with any white space around the
/// arrow and `,` or `.` before the milliseconds.
pub open spec fn timing_at(l: Seq<char>, p: int) -> bool {
    &&& stamp_at(l, p, true)
    &&& arrow_at(l, skip_ws(l, p + 12))
    &&& stamp_at(l, end_stamp_pos(l, p), true)
}

/// The leftmost position at or after `p` where a timing starts.
pub open spec fn first_timing(l: Seq<char>, p: int) -> Option<int>
    decreases l.len() - p,
{
    if p < 0 || p >= l.len() {
        None
    } else if timing_at(l, p) {
        Some(p)
    } else {
        first_timing(l, p + 1)
    }
}

/// The start and end (ms) of the leftmost timing in the line, if any.
pub open spec fn line_timing(l: Seq<char>) -> Option<(int, int)> {
    match first_timing(l, 0) {
        Some(p) => Some((stamp_ms(l, p), stamp_ms(l, end_stamp_pos(l, p)))),
        None => None,
    }
}

// ---------------------------------------------------------------- executable grammar

/// The value of a field of `n <= 3` digits at `p`.
pub fn field_value_exec(l: &Vec<char>, p: usize, n: usize) -> (v: i64)
    requires
        n <= 3,
        p + n <= l.len(),
    ensures
        v == field_value(l@, p as int, n as nat),
        0 <= v < 1000,
        n <= 2 ==> v < 100,
{
    let mut v: i64 = 0;
    let mut k: usize = 0;
    while k < n
        invariant
            k <= n <= 3,
            p + n <= l.len(),
            forall|j: int| p <= j < p + k ==> is_ascii_digit(#[trigger] l@[j]),
            v == ascii_value(l@, p as int, k as nat),
            0 <= v < (if k == 0 {
                1int
            } else if k == 1 {
                10
            } else if k == 2 {
                100
            } else {
                1000
            }),
        decreases n - k,
    {
        let c = l[p + k];
        if !('0' <= c && c <= '9') {
            assert(!is_ascii_digit(l@[p + k]));
            return 0;
        }
        v = v * 10 + ((c as u32) - 48) as i64;
        k += 1;
    }
    v
}

/// Whether `n` digit-class characters start at `p`.
pub fn digit_run_exec(l: &Vec<char>, p: usize, n: usize) -> (r: bool)
    requires
        n <= 3,
    ensures
        r == digit_run(l@, p as int, n as int),
{
    if p > l.len() || n > l.len() - p {
        return false;
    }
    let mut k: usize = 0;
    while k < n
        invariant
            k <= n,
            p + n <= l.len(),
            forall|j: int| p <= j < p + k ==> is_digit_class(#[trigger] l@[j]),
        decreases n - k,
    {
        if !digit_class(l[p + k]) {
            return false;
        }
        k += 1;
    }
    true
}

/// Whether a timestamp starts at `p`.
pub fn stamp_at_exec(l: &Vec<char>, p: usize, lenient: bool) -> (r: bool)
    ensures
        r == stamp_at(l@, p as int, lenient),
{
    if p > l.len() || l.len() - p < 12 {
        return false;
    }
    digit_run_exec(l, p, 2) && l[p + 2] == ':' && digit_run_exec(l, p + 3, 2) && l[p + 5] == ':'
        && digit_run_exec(l, p + 6, 2) && (l[p + 8] == ',' || (lenient && l[p + 8] == '.'))
        && digit_run_exec(l, p + 9, 3)
}

/// The milliseconds of the timestamp at `p`.
pub fn stamp_ms_exec(l: &Vec<char>, p: usize) -> (v: i64)
    requires
        p + 12 <= l.len(),
    ensures
        v == stamp_ms(l@, p as int),
        0 <= v <= 362_439_999,
{
    let h = field_value_exec(l, p, 2);
    let m = field_value_exec(l, p + 3, 2);
    let s = field_value_exec(l, p + 6, 2);
    let ms = field_value_exec(l, p + 9, 3);
    h * 3_600_000 + m * 60_000 + s * 1_000 + ms
}

/// The first position at or after `i` that is not white space.
pub fn skip_ws_exec(l: &Vec<char>, i: usize) -> (r: usize)
    ensures
        r as int == skip_ws(l@, i as int),
        i <= r,
        r <= i || r <= l@.len(),
{
    let mut j = i;
    while j < l.len() && is_white_space(l[j])
        invariant
            i <= j,
            skip_ws(l@, i as int) == skip_ws(l@, j as int),
            j <= i || j <= l@.len(),
        decreases l@.len() - j,
    {
        j += 1;
    }
    j
}

/// Whether `-->` starts at `q`.
pub fn arrow_at_exec(l: &Vec<char>, q: usize) -> (r: bool)
    ensures
        r == arrow_at(l@, q as int),
{
    q <= l.len() && l.len() - q >= 3 && l[q] == '-' && l[q + 1] == '-' && l[q + 2] == '>'
}

/// The start and end of the leftmost timing in `l`.
pub fn find_timing(l: &Vec<char>) -> (r: Option<(i64, i64)>)
    ensures
        match line_timing(l@) {
            Some((s, e)) => r == Some((s as i64, e as i64)) && 0 <= s < 400_000_000 && 0 <= e
                < 400_000_000,
            None => r is None,
        },
{
    let mut p: usize = 0;
    while p < l.len()
        invariant
            p <= l@.len(),
            first_timing(l@, 0) == first_timing(l@, p as int),
        decreases l@.len() - p,
    {
        if stamp_at_exec(l, p, true) {
            let q = skip_ws_exec(l, p + 12);
            if arrow_at_exec(l, q) {
                let e = skip_ws_exec(l, q + 3);
                if stamp_at_exec(l, e, true) {
                    assert(timing_at(l@, p as int));
                    let s_ms = stamp_ms_exec(l, p);
                    let e_ms = stamp_ms_exec(l, e);
                    return Some((s_ms, e_ms));
                }
            }
        }
        p += 1;
    }
    None
}

} // verus!

verus! {

// ---------------------------------------------------------------- cues

/// One subtitle cue: its start and end in milliseconds and its text, the
/// lines joined with the ASS line break `\N`.
#[derive(Debug, Clone)]
pub struct SubCue {
    pub start_ms: i64,
    pub end_ms: i64,
    pub text: String,
}

/// What a [`SubCue`] holds, as mathematical values.
pub struct CueView {
    pub start_ms: int,
    pub end_ms: int,
    pub text: Seq<char>,
}

impl View for SubCue {
    type V = CueView;

    open spec fn view(&self) -> CueView {
        CueView { start_ms: self.start_ms as int, end_ms: self.end_ms as int, text: self.text@ }
    }
}

impl SortKey for SubCue {
    open spec fn sort_key(&self) -> Seq<int> {
        seq![self.start_ms as int]
    }

    fn key_le(&self, other: &Self) -> (r: bool) {
        proof {
            reveal_with_fuel(lex_le, 2);
        }
        self.start_ms <= other.start_ms
    }
}

/// Cues are ordered by their start.
pub open spec fn cue_start_key() -> spec_fn(CueView) -> Seq<int> {
    |v: CueView| seq![v.start_ms]
}

/// `s` without a leading byte-order mark.
pub open spec fn strip_bom(s: Seq<char>) -> Seq<char> {
    if s.len() > 0 && s[0] == '\u{feff}' {
        s.drop_first()
    } else {
        s
    }
}

/// The lines of an SRT document: the byte-order mark dropped, every `\r`
/// removed, then split at `\n`.
pub open spec fn srt_lines(s: Seq<char>) -> Seq<Seq<char>> {
    pieces(strip_bom(s).filter(|c: char| c != '\r'), '\n')
}

/// The index of the first blank line at or after `k` (or the number of
/// lines when there is none).
pub open spec fn block_end(lines: Seq<Seq<char>>, k: int) -> int
    decreases lines.len() - k,
{
    if k < 0 || k >= lines.len() {
        k
    } else if is_blank(lines[k]) {
        k
    } else {
        block_end(lines, k + 1)
    }
}

/// A block that starts at `k` ends between `k` and the last line.
pub proof fn lemma_block_end_bounds(lines: Seq<Seq<char>>, k: int)
    ensures
        block_end(lines, k) >= k,
        0 <= k <= lines.len() ==> block_end(lines, k) <= lines.len(),
    decreases lines.len() - k,
{
    if 0 <= k < lines.len() && !is_blank(lines[k]) {
        lemma_block_end_bounds(lines, k + 1);
    }
}

/// The cues read from `lines[i..]`: every line holding a timing opens a cue
/// whose text is the lines after it up to the next blank line, joined with
/// `\N`; a cue without text lines is dropped, and reading resumes after that
/// blank line.  Lines that hold no timing are skipped.
pub open spec fn cues_from(lines: Seq<Seq<char>>, i: int) -> Seq<CueView>
    decreases lines.len() - i,
{
    if i < 0 || i >= lines.len() {
        seq![]
    } else {
        match line_timing(lines[i]) {
            None => cues_from(lines, i + 1),
            Some((st, en)) => {
                let e = block_end(lines, i + 1);
                proof {
                    lemma_block_end_bounds(lines, i + 1);
                }
                let text = lines.subrange(i + 1, e);
                let next = if e < lines.len() {
                    e + 1
                } else {
                    e
                };
                (if text.len() > 0 {
                    seq![CueView { start_ms: st, end_ms: en, text: join(text, seq!['\\', 'N']) }]
                } else {
                    seq![]
                }) + cues_from(lines, next)
            },
        }
    }
}

/// The cues of an SRT document, in document order.
pub open spec fn srt_cues(content: Seq<char>) -> Seq<CueView> {
    cues_from(srt_lines(content), 0)
}

/// The views of a sequence of cues.
pub open spec fn cue_views(s: Seq<SubCue>) -> Seq<CueView> {
    crate::sort::view_seq(s)
}

/// `s` without a leading byte-order mark and without any `\r`.
fn clean_source(s: &Vec<char>) -> (r: Vec<char>)
    ensures
        r@ == strip_bom(s@).filter(|c: char| c != '\r'),
{
    let ghost src = strip_bom(s@);
    let start: usize = if s.len() > 0 && s[0] == '\u{feff}' {
        1
    } else {
        0
    };
    assert(src =~= s@.skip(start as int));
    let mut r: Vec<char> = Vec::new();
    let mut i: usize = start;
    assert(src.take(0) =~= Seq::<char>::empty());
    proof {
        reveal(Seq::filter);
    }
    while i < s.len()
        invariant
            start <= i <= s.len(),
            src =~= s@.skip(start as int),
            r@ == src.take(i - start).filter(|c: char| c != '\r'),
        decreases s.len() - i,
    {
        let c = s[i];
        proof {
            let k = i - start;
            assert(src.take(k + 1) =~= src.take(k).push(c));
            src.take(k).lemma_filter_push(c, |c: char| c != '\r');
        }
        if c != '\r' {
            r.push(c);
        }
        i += 1;
    }
    assert(src.take(s.len() - start) =~= src);
    r
}

/// Parses an SRT document into cues sorted by start time.  Cues that share
/// a start time keep their document order.
pub fn parse_srt(content: &str) -> (r: Vec<SubCue>)
    ensures
        is_stable_sort(srt_cues(content@), cue_views(r@), cue_start_key()),
{
    let chars = chars_of(content);
    let cleaned = clean_source(&chars);
    let lines = split_char(&cleaned, '\n');
    let ghost ls = srt_lines(content@);
    assert(views(lines@) =~= ls);
    let sep = chars_of("\\N");
    proof {
        reveal_strlit("\\N");
    }
    assert(sep@ =~= seq!['\\', 'N']);
    let mut cues: Vec<SubCue> = Vec::new();
    let mut i: usize = 0;
    while i < lines.len()
        invariant
            ls == views(lines@),
            ls.len() == lines@.len(),
            sep@ == seq!['\\', 'N'],
            i <= lines.len(),
            cue_views(cues@) + cues_from(ls, i as int) == cues_from(ls, 0),
        decreases lines.len() - i,
    {
        let ghost before = cues@;
        assert(ls[i as int] == lines@[i as int]@);
        match find_timing(&lines[i]) {
            None => {
                i += 1;
            },
            Some((st, en)) => {
                let mut e: usize = i + 1;
                while e < lines.len() && !chars_blank(&lines[e])
                    invariant
                        i < e <= lines.len(),
                        ls == views(lines@),
                        ls.len() == lines@.len(),
                        block_end(ls, i + 1) == block_end(ls, e as int),
                    decreases lines.len() - e,
                {
                    assert(ls[e as int] == lines@[e as int]@);
                    e += 1;
                }
                if e < lines.len() {
                    assert(ls[e as int] == lines@[e as int]@);
                }
                assert(block_end(ls, i + 1) == e);
                if e > i + 1 {
                    let text = join_range(&lines, i + 1, e, &sep);
                    let cue = SubCue { start_ms: st, end_ms: en, text: string_of(&text) };
                    cues.push(cue);
                    assert(cue_views(cues@) =~= cue_views(before).push(cue@));
                }
                let next = if e < lines.len() {
                    e + 1
                } else {
                    e
                };
                assert(cue_views(cues@) + cues_from(ls, next as int) =~= cue_views(before)
                    + cues_from(ls, i as int));
                i = next;
            },
        }
    }
    let sorted = stable_sort(cues);
    proof {
        assert(cues_from(ls, i as int) =~= Seq::<CueView>::empty());
        assert(cue_views(cues@) =~= srt_cues(content@));
        assert forall|t: SubCue| #[trigger] key_of::<SubCue>()(t) == cue_start_key()(t@) by {}
        lemma_stable_sort_views(cues@, sorted@, key_of::<SubCue>(), cue_start_key());
    }
    sorted
}

} // verus!

verus! {

// ---------------------------------------------------------------- formatting

/// The `HH:MM:SS,mmm` text of `ms` milliseconds (`ms >= 0`); the hours take
/// as many digits as they need, at least two.
pub open spec fn srt_stamp_text(ms: int) -> Seq<char> {
    zero_pad(decimal((ms / 3_600_000) as nat), 2) + seq![':'] + zero_pad(
        decimal(((ms % 3_600_000) / 60_000) as nat),
        2,
    ) + seq![':'] + zero_pad(decimal(((ms % 60_000) / 1_000) as nat), 2) + seq![','] + zero_pad(
        decimal((ms % 1_000) as nat),
        3,
    )
}

/// Appends the `HH:MM:SS,mmm` text of `ms`.
pub fn push_srt_stamp(out: &mut Vec<char>, ms: i64)
    requires
        ms >= 0,
    ensures
        final(out)@ == old(out)@ + srt_stamp_text(ms as int),
{
    let t = ms as u64;
    let ghost start = out@;
    push_padded(out, t / 3_600_000, 2);
    out.push(':');
    push_padded(out, (t % 3_600_000) / 60_000, 2);
    out.push(':');
    push_padded(out, (t % 60_000) / 1_000, 2);
    out.push(',');
    push_padded(out, t % 1_000, 3);
    assert(out@ =~= start + srt_stamp_text(ms as int));
}

/// Formats milliseconds as an SRT timestamp `HH:MM:SS,mmm`; a negative time
/// is shown as zero.
pub fn format_srt_ts(ms: i64) -> (r: String)
    ensures
        r@ == srt_stamp_text(if ms < 0 {
            0
        } else {
            ms as int
        }),
{
    let t = if ms < 0 {
        0
    } else {
        ms
    };
    let mut out: Vec<char> = Vec::new();
    push_srt_stamp(&mut out, t);
    assert(out@ =~= srt_stamp_text(t as int));
    string_of(&out)
}


proof fn lemma_digit_char(d: nat)
    requires
        d < 10,
    ensures
        is_ascii_digit(digit_char(d)),
        digit_char(d) as int - 48 == d,
{
}

proof fn lemma_pad2(n: nat)
    requires
        n < 100,
    ensures
        zero_pad(decimal(n), 2) == seq![digit_char(n / 10), digit_char(n % 10)],
{
    if n < 10 {
        assert(decimal(n) == seq![digit_char(n)]);
        assert(zero_pad(decimal(n), 2) =~= seq![digit_char(0), digit_char(n)]);
    } else {
        assert(decimal((n / 10) as nat) == seq![digit_char((n / 10) as nat)]);
        assert(decimal(n) =~= seq![digit_char(n / 10), digit_char(n % 10)]);
    }
}

proof fn lemma_pad3(n: nat)
    requires
        n < 1000,
    ensures
        zero_pad(decimal(n), 3) == seq![digit_char(n / 100), digit_char((n / 10) % 10), digit_char(n % 10)],
{
    if n < 10 {
        assert(decimal(n) == seq![digit_char(n)]);
        assert(zero_pad(decimal(n), 3) =~= seq![digit_char(0), digit_char(0), digit_char(n)]);
    } else if n < 100 {
        assert(decimal((n / 10) as nat) == seq![digit_char((n / 10) as nat)]);
        assert(decimal(n) =~= seq![digit_char(n / 10), digit_char(n % 10)]);
        assert(zero_pad(decimal(n), 3) =~= seq![digit_char(0), digit_char(n / 10), digit_char(n % 10)]);
    } else {
        let q = (n / 10) as nat;
        assert(10 <= q < 100);
        assert(decimal((q / 10) as nat) == seq![digit_char((q / 10) as nat)]);
        assert(decimal(q) =~= seq![digit_char(q / 10), digit_char(q % 10)]);
        assert(q / 10 == n / 100) by (nonlinear_arith)
            requires q == n / 10, n >= 100;
        assert(decimal(n) =~= seq![digit_char(n / 100), digit_char((n / 10) % 10), digit_char(n % 10)]);
    }
}

proof fn lemma_split_ms(ms: int)
    requires
        0 <= ms,
    ensures
        (ms / 3_600_000) * 3_600_000 + ((ms % 3_600_000) / 60_000) * 60_000 + ((ms % 60_000) / 1_000) * 1_000
            + ms % 1_000 == ms,
        ((ms % 3_600_000) / 60_000) < 60,
        (ms % 60_000) / 1_000 < 60,
{
    let r = ms % 3_600_000;
    assert(ms == (ms / 3_600_000) * 3_600_000 + r) by (nonlinear_arith)
        requires r == ms % 3_600_000, ms >= 0;
    assert(0 <= r < 3_600_000);
    assert(r == (r / 60_000) * 60_000 + r % 60_000) by (nonlinear_arith)
        requires r >= 0;
    assert(r % 60_000 == ms % 60_000) by (nonlinear_arith)
        requires r == ms % 3_600_000, ms >= 0;
    let s = ms % 60_000;
    assert(s == (s / 1_000) * 1_000 + s % 1_000) by (nonlinear_arith)
        requires s >= 0;
    assert(s % 1_000 == ms % 1_000) by (nonlinear_arith)
        requires s == ms % 60_000, ms >= 0;
    assert(r / 60_000 < 60) by (nonlinear_arith)
        requires 0 <= r < 3_600_000;
    assert(s / 1_000 < 60) by (nonlinear_arith)
        requires 0 <= s < 60_000;
}

/// Two ASCII digits at `p` stand for their two-digit number, which writes
/// back as the same two characters.
proof fn lemma_two_digits(l: Seq<char>, p: int)
    requires
        0 <= p,
        p + 2 <= l.len(),
        is_ascii_digit(l[p]),
        is_ascii_digit(l[p + 1]),
    ensures
        field_value(l, p, 2) == (l[p] as int - 48) * 10 + (l[p + 1] as int - 48),
        0 <= field_value(l, p, 2) < 100,
        zero_pad(decimal(field_value(l, p, 2) as nat), 2) == l.subrange(p, p + 2),
{
    assert forall|k: int| p <= k < p + 2 implies is_ascii_digit(#[trigger] l[k]) by {
        if k == p + 1 {
        }
    }
    reveal_with_fuel(ascii_value, 3);
    let v = field_value(l, p, 2);
    let d1 = l[p] as int - 48;
    let d0 = l[p + 1] as int - 48;
    assert(v == d1 * 10 + d0);
    lemma_pad2(v as nat);
    assert(v / 10 == d1 && v % 10 == d0);
    assert(digit_char(d1 as nat) == l[p]);
    assert(digit_char(d0 as nat) == l[p + 1]);
    assert(l.subrange(p, p + 2) =~= seq![l[p], l[p + 1]]);
}

/// Three ASCII digits at `p` stand for their number, which writes back as
/// the same three characters.
proof fn lemma_three_digits(l: Seq<char>, p: int)
    requires
        0 <= p,
        p + 3 <= l.len(),
        is_ascii_digit(l[p]),
        is_ascii_digit(l[p + 1]),
        is_ascii_digit(l[p + 2]),
    ensures
        0 <= field_value(l, p, 3) < 1000,
        zero_pad(decimal(field_value(l, p, 3) as nat), 3) == l.subrange(p, p + 3),
{
    assert forall|k: int| p <= k < p + 3 implies is_ascii_digit(#[trigger] l[k]) by {
        if k == p + 1 {
        } else if k == p + 2 {
        }
    }
    reveal_with_fuel(ascii_value, 4);
    let v = field_value(l, p, 3);
    let d2 = l[p] as int - 48;
    let d1 = l[p + 1] as int - 48;
    let d0 = l[p + 2] as int - 48;
    assert(v == (d2 * 10 + d1) * 10 + d0);
    lemma_pad3(v as nat);
    assert(v / 100 == d2 && (v / 10) % 10 == d1 && v % 10 == d0);
    assert(digit_char(d2 as nat) == l[p]);
    assert(digit_char(d1 as nat) == l[p + 1]);
    assert(digit_char(d0 as nat) == l[p + 2]);
    assert(l.subrange(p, p + 3) =~= seq![l[p], l[p + 1], l[p + 2]]);
}

/// A timestamp whose minutes and seconds are below 60 writes back, from
/// the time it stands for, as the same twelve characters.
pub proof fn lemma_canonical_stamp(l: Seq<char>, p: int)
    requires
        0 <= p,
        stamp_at(l, p, false),
        field_value(l, p + 3, 2) < 60,
        field_value(l, p + 6, 2) < 60,
    ensures
        0 <= stamp_ms(l, p) < 360_000_000,
        srt_stamp_text(stamp_ms(l, p)) == l.subrange(p, p + 12),
{
    assert(is_digit_class(l[p]) && is_digit_class(l[p + 1]));
    assert(is_digit_class(l[p + 3]) && is_digit_class(l[p + 4]));
    assert(is_digit_class(l[p + 6]) && is_digit_class(l[p + 7]));
    assert(is_digit_class(l[p + 9]) && is_digit_class(l[p + 10]) && is_digit_class(l[p + 11]));
    lemma_two_digits(l, p);
    lemma_two_digits(l, p + 3);
    lemma_two_digits(l, p + 6);
    lemma_three_digits(l, p + 9);
    let h = field_value(l, p, 2);
    let m = field_value(l, p + 3, 2);
    let s = field_value(l, p + 6, 2);
    let f = field_value(l, p + 9, 3);
    let ms = stamp_ms(l, p);
    assert(ms == h * 3_600_000 + m * 60_000 + s * 1_000 + f);
    assert(ms / 3_600_000 == h && (ms % 3_600_000) / 60_000 == m && (ms % 60_000) / 1_000 == s && ms % 1_000 == f
        && 0 <= ms < 360_000_000) by (nonlinear_arith)
        requires
            ms == h * 3_600_000 + m * 60_000 + s * 1_000 + f,
            0 <= h < 100,
            0 <= m < 60,
            0 <= s < 60,
            0 <= f < 1000,
    ;
    assert(l.subrange(p, p + 12) =~= l.subrange(p, p + 2) + seq![':'] + l.subrange(p + 3, p + 5) + seq![':']
        + l.subrange(p + 6, p + 8) + seq![','] + l.subrange(p + 9, p + 12));
}

/// A timestamp written by [`format_srt_ts`] reads back as the same time:
/// for any time below 100 hours, its text is a timestamp (with `,`) and
/// stands for exactly those milliseconds.
pub proof fn lemma_srt_stamp_round_trip(ms: int)
    requires
        0 <= ms < 360_000_000,
    ensures
        stamp_at(srt_stamp_text(ms), 0, false),
        srt_stamp_text(ms).len() == 12,
        stamp_ms(srt_stamp_text(ms), 0) == ms,
{
    let h = (ms / 3_600_000) as nat;
    let m = ((ms % 3_600_000) / 60_000) as nat;
    let s = ((ms % 60_000) / 1_000) as nat;
    let f = (ms % 1_000) as nat;
    lemma_split_ms(ms);
    assert(h < 100);
    lemma_pad2(h);
    lemma_pad2(m);
    lemma_pad2(s);
    lemma_pad3(f);
    let t = srt_stamp_text(ms);
    assert(t =~= seq![
        digit_char(h / 10), digit_char(h % 10), ':',
        digit_char(m / 10), digit_char(m % 10), ':',
        digit_char(s / 10), digit_char(s % 10), ',',
        digit_char(f / 100), digit_char((f / 10) % 10), digit_char(f % 10),
    ]);
    lemma_digit_char(h / 10);
    lemma_digit_char(h % 10);
    lemma_digit_char(m / 10);
    lemma_digit_char(m % 10);
    lemma_digit_char(s / 10);
    lemma_digit_char(s % 10);
    lemma_digit_char(f / 100);
    lemma_digit_char((f / 10) % 10);
    lemma_digit_char(f % 10);
    assert(field_value(t, 0, 2) == h) by {
        reveal_with_fuel(ascii_value, 3);
        assert(ascii_value(t, 0, 2) == (h / 10) * 10 + h % 10);
    }
    assert(field_value(t, 3, 2) == m) by {
        reveal_with_fuel(ascii_value, 3);
        assert(ascii_value(t, 3, 2) == (m / 10) * 10 + m % 10);
    }
    assert(field_value(t, 6, 2) == s) by {
        reveal_with_fuel(ascii_value, 3);
        assert(ascii_value(t, 6, 2) == (s / 10) * 10 + s % 10);
    }
    assert(field_value(t, 9, 3) == f) by {
        reveal_with_fuel(ascii_value, 4);
        assert(ascii_value(t, 9, 3) == ((f / 100) * 10 + (f / 10) % 10) * 10 + f % 10);
        assert(((f / 100) * 10 + (f / 10) % 10) * 10 + f % 10 == f) by (nonlinear_arith)
            requires f < 1000;
    }
}

proof fn lemma_ascii_value_same(l: Seq<char>, p: int, a: Seq<char>, q: int, n: nat)
    requires
        0 <= p,
        p + n <= l.len(),
        0 <= q,
        q + n <= a.len(),
        l.subrange(p, p + n) == a.subrange(q, q + n),
    ensures
        ascii_value(l, p, n) == ascii_value(a, q, n),
    decreases n,
{
    if n > 0 {
        assert(l.subrange(p, p + n - 1) =~= l.subrange(p, p + n).subrange(0, n - 1));
        assert(a.subrange(q, q + n - 1) =~= a.subrange(q, q + n).subrange(0, n - 1));
        lemma_ascii_value_same(l, p, a, q, (n - 1) as nat);
        assert(l.subrange(p, p + n)[n - 1] == a.subrange(q, q + n)[n - 1]);
        assert(l.subrange(p, p + n)[n - 1] == l[p + n - 1]);
        assert(a.subrange(q, q + n)[n - 1] == a[q + n - 1]);
    }
}

proof fn lemma_field_value_same(l: Seq<char>, p: int, a: Seq<char>, q: int, n: nat)
    requires
        0 <= p,
        p + n <= l.len(),
        0 <= q,
        q + n <= a.len(),
        l.subrange(p, p + n) == a.subrange(q, q + n),
    ensures
        field_value(l, p, n) == field_value(a, q, n),
{
    lemma_ascii_value_same(l, p, a, q, n);
    if forall|k: int| p <= k < p + n ==> is_ascii_digit(#[trigger] l[k]) {
        assert forall|k: int| q <= k < q + n implies is_ascii_digit(#[trigger] a[k]) by {
            assert(l.subrange(p, p + n)[k - q] == a.subrange(q, q + n)[k - q]);
            assert(l.subrange(p, p + n)[k - q] == l[p + (k - q)]);
            assert(is_ascii_digit(l[p + (k - q)]));
        }
    }
    if forall|k: int| q <= k < q + n ==> is_ascii_digit(#[trigger] a[k]) {
        assert forall|k: int| p <= k < p + n implies is_ascii_digit(#[trigger] l[k]) by {
            assert(l.subrange(p, p + n)[k - p] == a.subrange(q, q + n)[k - p]);
            assert(a.subrange(q, q + n)[k - p] == a[q + (k - p)]);
            assert(is_ascii_digit(a[q + (k - p)]));
        }
    }
}

/// Two texts that agree on the twelve characters of a timestamp give it
/// the same time.
pub proof fn lemma_stamp_ms_same(l: Seq<char>, p: int, a: Seq<char>, q: int)
    requires
        0 <= p,
        p + 12 <= l.len(),
        0 <= q,
        q + 12 <= a.len(),
        l.subrange(p, p + 12) == a.subrange(q, q + 12),
    ensures
        stamp_ms(l, p) == stamp_ms(a, q),
{
    assert(l.subrange(p, p + 2) =~= a.subrange(q, q + 2)) by {
        assert forall|k: int| 0 <= k < 2 implies #[trigger] l.subrange(p, p + 2)[k] == a.subrange(q, q + 2)[k] by {
            assert(l.subrange(p, p + 12)[k] == a.subrange(q, q + 12)[k]);
        }
    }
    assert(l.subrange(p + 3, p + 5) =~= a.subrange(q + 3, q + 5)) by {
        assert forall|k: int| 0 <= k < 2 implies #[trigger] l.subrange(p + 3, p + 5)[k] == a.subrange(q + 3, q + 5)[k] by {
            assert(l.subrange(p, p + 12)[k + 3] == a.subrange(q, q + 12)[k + 3]);
            assert(l.subrange(p + 3, p + 5)[k] == l[p + 3 + k]);
            assert(l.subrange(p, p + 12)[k + 3] == l[p + 3 + k]);
            assert(a.subrange(q + 3, q + 5)[k] == a[q + 3 + k]);
            assert(a.subrange(q, q + 12)[k + 3] == a[q + 3 + k]);
        }
    }
    assert(l.subrange(p + 6, p + 8) =~= a.subrange(q + 6, q + 8)) by {
        assert forall|k: int| 0 <= k < 2 implies #[trigger] l.subrange(p + 6, p + 8)[k] == a.subrange(q + 6, q + 8)[k] by {
            assert(l.subrange(p, p + 12)[k + 6] == a.subrange(q, q + 12)[k + 6]);
            assert(l.subrange(p + 6, p + 8)[k] == l[p + 6 + k]);
            assert(l.subrange(p, p + 12)[k + 6] == l[p + 6 + k]);
            assert(a.subrange(q + 6, q + 8)[k] == a[q + 6 + k]);
            assert(a.subrange(q, q + 12)[k + 6] == a[q + 6 + k]);
        }
    }
    assert(l.subrange(p + 9, p + 12) =~= a.subrange(q + 9, q + 12)) by {
        assert forall|k: int| 0 <= k < 3 implies #[trigger] l.subrange(p + 9, p + 12)[k] == a.subrange(q + 9, q + 12)[k] by {
            assert(l.subrange(p, p + 12)[k + 9] == a.subrange(q, q + 12)[k + 9]);
            assert(l.subrange(p + 9, p + 12)[k] == l[p + 9 + k]);
            assert(l.subrange(p, p + 12)[k + 9] == l[p + 9 + k]);
            assert(a.subrange(q + 9, q + 12)[k] == a[q + 9 + k]);
            assert(a.subrange(q, q + 12)[k + 9] == a[q + 9 + k]);
        }
    }
    lemma_field_value_same(l, p, a, q, 2);
    lemma_field_value_same(l, p + 3, a, q + 3, 2);
    lemma_field_value_same(l, p + 6, a, q + 6, 2);
    lemma_field_value_same(l, p + 9, a, q + 9, 3);
}

/// A timing line written with [`format_srt_ts`], `start --> end`, is read
/// back by [`parse_srt`]'s timing reader as the same two times.
pub proof fn lemma_srt_timing_round_trip(start: int, end: int)
    requires
        0 <= start < 360_000_000,
        0 <= end < 360_000_000,
    ensures
        line_timing(srt_stamp_text(start) + " --> "@ + srt_stamp_text(end)) == Some((start, end)),
{
    reveal_strlit(" --> ");
    lemma_srt_stamp_round_trip(start);
    lemma_srt_stamp_round_trip(end);
    let a = srt_stamp_text(start);
    let b = srt_stamp_text(end);
    let l = a + " --> "@ + b;
    assert(l.len() == 29);
    assert forall|k: int| 0 <= k < 12 implies l[k] == a[k] by {}
    assert forall|k: int| 0 <= k < 12 implies l[17 + k] == b[k] by {}
    assert(l.subrange(0, 12) =~= a);
    assert(stamp_at(l, 0, true)) by {
        assert(forall|k: int| 0 <= k < 12 ==> l[k] == a[k]);
    }
    assert(is_ws(l[12]));
    assert(!is_ws(l[13]));
    assert(skip_ws(l, 13) == 13);
    assert(skip_ws(l, 12) == 13);
    assert(arrow_at(l, 13));
    assert(is_ws(l[16]));
    assert(!is_ws(l[17])) by {
        assert(l[17] == b[0]);
    }
    assert(skip_ws(l, 17) == 17);
    assert(skip_ws(l, 16) == 17);
    assert(end_stamp_pos(l, 0) == 17);
    assert(stamp_at(l, 17, true)) by {
        assert(forall|k: int| 0 <= k < 12 ==> l[17 + k] == b[k]);
    }
    assert(timing_at(l, 0));
    assert(first_timing(l, 0) == Some(0int));
    assert(stamp_ms(l, 0) == stamp_ms(a, 0)) by {
        assert(l.subrange(0, 2) =~= a.subrange(0, 2));
        assert(l.subrange(3, 5) =~= a.subrange(3, 5));
        assert(l.subrange(6, 8) =~= a.subrange(6, 8));
        assert(l.subrange(9, 12) =~= a.subrange(9, 12));
        lemma_field_value_same(l, 0, a, 0, 2);
        lemma_field_value_same(l, 3, a, 3, 2);
        lemma_field_value_same(l, 6, a, 6, 2);
        lemma_field_value_same(l, 9, a, 9, 3);
    }
    assert(stamp_ms(l, 17) == stamp_ms(b, 0)) by {
        assert(l.subrange(17, 19) =~= b.subrange(0, 2));
        assert(l.subrange(20, 22) =~= b.subrange(3, 5));
        assert(l.subrange(23, 25) =~= b.subrange(6, 8));
        assert(l.subrange(26, 29) =~= b.subrange(9, 12));
        lemma_field_value_same(l, 17, b, 0, 2);
        lemma_field_value_same(l, 20, b, 3, 2);
        lemma_field_value_same(l, 23, b, 6, 2);
        lemma_field_value_same(l, 26, b, 9, 3);
    }
}

// ---------------------------------------------------------------- document laws

/// `s` with every `\n` written as `\r\n` (Windows line endings).
pub open spec fn crlf(s: Seq<char>) -> Seq<char>
    decreases s.len(),
{
    if s.len() == 0 {
        seq![]
    } else {
        crlf(s.drop_last()) + (if s.last() == '\n' {
            seq!['\r', '\n']
        } else {
            seq![s.last()]
        })
    }
}

/// Windows line endings leave the same characters once every `\r` is
/// dropped.
proof fn lemma_crlf_filter(s: Seq<char>)
    ensures
        crlf(s).filter(|c: char| c != '\r') == s.filter(|c: char| c != '\r'),
        s.len() > 0 ==> crlf(s).len() > 0 && (crlf(s)[0] == s[0] || crlf(s)[0] == '\r'),
    decreases s.len(),
{
    let p = |c: char| c != '\r';
    if s.len() > 0 {
        lemma_crlf_filter(s.drop_last());
        let tail = if s.last() == '\n' {
            seq!['\r', '\n']
        } else {
            seq![s.last()]
        };
        Seq::filter_distributes_over_add(crlf(s.drop_last()), tail, p);
        assert(s =~= s.drop_last() + seq![s.last()]);
        Seq::filter_distributes_over_add(s.drop_last(), seq![s.last()], p);
        reveal_with_fuel(Seq::filter, 3);
        if s.last() == '\n' {
            assert(tail.filter(p) =~= seq!['\n']);
        } else {
            assert(tail.filter(p) =~= seq![s.last()].filter(p));
        }
        if s.len() == 1 {
            assert(crlf(s.drop_last()) =~= Seq::<char>::empty());
            assert(crlf(s) =~= tail);
        } else {
            assert(crlf(s)[0] == crlf(s.drop_last())[0]);
            assert(s.drop_last()[0] == s[0]);
        }
    }
}

/// A document read with a leading byte-order mark, or with Windows line
/// endings, gives the same cues: `parse_srt` sorts the same cues either
/// way, so its results are equal.
pub proof fn lemma_srt_bom_crlf_same_cues(s: Seq<char>, plain: Seq<SubCue>, marked: Seq<SubCue>, windows: Seq<SubCue>)
    requires
        !(s.len() > 0 && s[0] == '\u{feff}'),
        is_stable_sort(srt_cues(s), cue_views(plain), cue_start_key()),
        is_stable_sort(srt_cues(seq!['\u{feff}'] + s), cue_views(marked), cue_start_key()),
        is_stable_sort(srt_cues(crlf(s)), cue_views(windows), cue_start_key()),
    ensures
        cue_views(marked) == cue_views(plain),
        cue_views(windows) == cue_views(plain),
{
    assert((seq!['\u{feff}'] + s).drop_first() =~= s);
    assert(srt_lines(seq!['\u{feff}'] + s) == srt_lines(s));
    lemma_crlf_filter(s);
    assert(strip_bom(crlf(s)) == crlf(s));
    assert(srt_lines(crlf(s)) == srt_lines(s));
    crate::sort::lemma_stable_sort_unique(srt_cues(s), cue_views(marked), cue_views(plain), cue_start_key());
    crate::sort::lemma_stable_sort_unique(srt_cues(s), cue_views(windows), cue_views(plain), cue_start_key());
}

/// Every character of a written timestamp is a digit, `:` or `,`.
proof fn lemma_stamp_text_chars(ms: int)
    requires
        0 <= ms < 360_000_000,
    ensures
        forall|k: int| 0 <= k < 12 ==> is_ascii_digit(#[trigger] srt_stamp_text(ms)[k])
            || srt_stamp_text(ms)[k] == ':' || srt_stamp_text(ms)[k] == ',',
{
    lemma_srt_stamp_round_trip(ms);
    let t = srt_stamp_text(ms);
    assert forall|k: int| 0 <= k < 12 implies is_ascii_digit(#[trigger] t[k]) || t[k] == ':' || t[k] == ',' by {
        if k != 2 && k != 5 && k != 8 {
            if k < 2 {
                assert(digit_run(t, 0, 2));
            } else if k < 5 {
                assert(digit_run(t, 3, 2));
            } else if k < 8 {
                assert(digit_run(t, 6, 2));
            } else {
                assert(digit_run(t, 9, 3));
            }
            assert(is_digit_class(t[k]));
        }
    }
}

/// Filtering keeps a sequence none of whose items it drops.
proof fn lemma_filter_keeps_all(s: Seq<char>, p: spec_fn(char) -> bool)
    requires
        forall|i: int| 0 <= i < s.len() ==> p(#[trigger] s[i]),
    ensures
        s.filter(p) == s,
    decreases s.len(),
{
    reveal(Seq::filter);
    if s.len() > 0 {
        lemma_filter_keeps_all(s.drop_last(), p);
    }
    assert(s.filter(p) =~= s);
}

/// Splitting at `sep`: from `i`, where `s[i..j]` holds no `sep` and `s[j]`
/// is `sep`, the current piece ends at `j`.
proof fn lemma_pieces_upto(s: Seq<char>, sep: char, i: int, j: int, cur: Seq<char>)
    requires
        0 <= i <= j < s.len(),
        s[j] == sep,
        forall|k: int| i <= k < j ==> s[k] != sep,
    ensures
        pieces_from(s, sep, i, cur) == seq![cur + s.subrange(i, j)] + pieces_from(s, sep, j + 1, seq![]),
    decreases j - i,
{
    if i < j {
        lemma_pieces_upto(s, sep, i + 1, j, cur.push(s[i]));
        assert(cur.push(s[i]) + s.subrange(i + 1, j) =~= cur + s.subrange(i, j));
    } else {
        assert(cur + s.subrange(i, j) =~= cur);
    }
}

/// The document `start --> end`, a text line, then a line end.
pub open spec fn one_cue_doc(start: int, end: int, text: Seq<char>) -> Seq<char> {
    srt_stamp_text(start) + " --> "@ + srt_stamp_text(end) + seq!['\n'] + text + seq!['\n']
}

/// The timing line of a written cue: no line break, carriage return or
/// byte-order mark in it.
proof fn lemma_timing_line_chars(start: int, end: int)
    requires
        0 <= start < 360_000_000,
        0 <= end < 360_000_000,
    ensures
        ({
            let line = srt_stamp_text(start) + " --> "@ + srt_stamp_text(end);
            &&& line.len() == 29
            &&& forall|k: int| 0 <= k < 29 ==> #[trigger] line[k] != '\n' && line[k] != '\r' && line[k] != '\u{feff}'
        }),
{
    reveal_strlit(" --> ");
    lemma_stamp_text_chars(start);
    lemma_stamp_text_chars(end);
    lemma_srt_stamp_round_trip(start);
    lemma_srt_stamp_round_trip(end);
    let line = srt_stamp_text(start) + " --> "@ + srt_stamp_text(end);
    assert forall|k: int| 0 <= k < 29 implies #[trigger] line[k] != '\n' && line[k] != '\r' && line[k] != '\u{feff}' by {
        if k < 12 {
            assert(line[k] == srt_stamp_text(start)[k]);
        } else if k >= 17 {
            assert(line[k] == srt_stamp_text(end)[k - 17]);
        }
    }
}

/// A text with no carriage return and no leading byte-order mark has as
/// lines its pieces between line breaks.
proof fn lemma_plain_lines(doc: Seq<char>)
    requires
        forall|k: int| 0 <= k < doc.len() ==> #[trigger] doc[k] != '\r',
        !(doc.len() > 0 && doc[0] == '\u{feff}'),
    ensures
        srt_lines(doc) == pieces(doc, '\n'),
{
    assert(strip_bom(doc) == doc);
    lemma_filter_keeps_all(doc, |c: char| c != '\r');
}

/// The pieces of a line, a line break, a second line and a line break,
/// neither line holding a line break: the two lines and an empty last one.
proof fn lemma_two_line_pieces(line: Seq<char>, text: Seq<char>)
    requires
        forall|k: int| 0 <= k < line.len() ==> #[trigger] line[k] != '\n',
        forall|k: int| 0 <= k < text.len() ==> #[trigger] text[k] != '\n',
    ensures
        pieces(line + seq!['\n'] + text + seq!['\n'], '\n') == seq![line, text, Seq::<char>::empty()],
{
    let doc = line + seq!['\n'] + text + seq!['\n'];
    let m: int = line.len() as int;
    let n: int = text.len() as int;
    assert forall|k: int| 0 <= k < m implies doc[k] != '\n' by {
        assert(doc[k] == line[k]);
    }
    lemma_pieces_upto(doc, '\n', 0, m, seq![]);
    assert forall|k: int| m + 1 <= k < m + 1 + n implies doc[k] != '\n' by {
        assert(doc[k] == text[k - m - 1]);
    }
    lemma_pieces_upto(doc, '\n', m + 1, m + 1 + n, seq![]);
    assert(seq![] + doc.subrange(0, m) =~= line);
    assert(seq![] + doc.subrange(m + 1, m + 1 + n) =~= text);
    assert(pieces_from(doc, '\n', m + 2 + n, seq![]) == seq![Seq::<char>::empty()]);
    assert(pieces(doc, '\n') =~= seq![line, text, Seq::<char>::empty()]);
}

/// The lines of a line, a line break, a second line and a line break,
/// neither line holding a line break or carriage return and the first not
/// opening with a byte-order mark: the two lines and an empty last one.
proof fn lemma_two_line_doc(line: Seq<char>, text: Seq<char>)
    requires
        forall|k: int| 0 <= k < line.len() ==> #[trigger] line[k] != '\n' && line[k] != '\r',
        forall|k: int| 0 <= k < text.len() ==> #[trigger] text[k] != '\n' && text[k] != '\r',
        !(line.len() > 0 && line[0] == '\u{feff}'),
    ensures
        srt_lines(line + seq!['\n'] + text + seq!['\n']) == seq![line, text, Seq::<char>::empty()],
{
    let doc = line + seq!['\n'] + text + seq!['\n'];
    let m: int = line.len() as int;
    assert forall|k: int| 0 <= k < doc.len() implies #[trigger] doc[k] != '\r' by {
        if k < m {
            assert(doc[k] == line[k]);
        } else if m + 1 <= k < doc.len() - 1 {
            assert(doc[k] == text[k - m - 1]);
        }
    }
    if m > 0 {
        assert(doc[0] == line[0]);
    }
    lemma_plain_lines(doc);
    lemma_two_line_pieces(line, text);
}

/// A timing line followed by one text line that is not blank, then an
/// empty line, gives one cue.
proof fn lemma_one_cue_from(line: Seq<char>, text: Seq<char>, start: int, end: int)
    requires
        line_timing(line) == Some((start, end)),
        !is_blank(text),
    ensures
        cues_from(seq![line, text, Seq::<char>::empty()], 0) == seq![CueView { start_ms: start, end_ms: end, text }],
{
    let lines = seq![line, text, Seq::<char>::empty()];
    assert(lines[0] == line);
    assert(lines[1] == text);
    assert(is_blank(lines[2]));
    assert(block_end(lines, 2) == 2);
    assert(block_end(lines, 1) == 2);
    assert(lines.subrange(1, 2) =~= seq![text]);
    assert(cues_from(lines, 3) == Seq::<CueView>::empty());
    assert(cues_from(lines, 0) =~= seq![CueView { start_ms: start, end_ms: end, text }]);
}

/// The cues of a written one-cue document.
#[verifier::rlimit(60)]
proof fn lemma_one_cue_doc_cues(start: int, end: int, text: Seq<char>)
    requires
        0 <= start < 360_000_000,
        0 <= end < 360_000_000,
        !is_blank(text),
        forall|k: int| 0 <= k < text.len() ==> #[trigger] text[k] != '\n' && text[k] != '\r',
    ensures
        srt_cues(one_cue_doc(start, end, text)) == seq![CueView { start_ms: start, end_ms: end, text }],
{
    let line = srt_stamp_text(start) + " --> "@ + srt_stamp_text(end);
    lemma_timing_line_chars(start, end);
    lemma_two_line_doc(line, text);
    assert(one_cue_doc(start, end, text) =~= line + seq!['\n'] + text + seq!['\n']);
    lemma_srt_timing_round_trip(start, end);
    lemma_one_cue_from(line, text, start, end);
}

/// One cue sorts to itself.
proof fn lemma_single_cue_sorted(c: CueView)
    ensures
        is_stable_sort(seq![c], seq![c], cue_start_key()),
{
}

/// A document holding one cue written with [`format_srt_ts`] reads back
/// through [`parse_srt`] as exactly that cue: the same start, end and text
/// (a single line that is not blank and holds no line break).
pub proof fn lemma_srt_document_round_trip(start: int, end: int, text: Seq<char>, parsed: Seq<SubCue>)
    requires
        0 <= start < 360_000_000,
        0 <= end < 360_000_000,
        !is_blank(text),
        forall|k: int| 0 <= k < text.len() ==> #[trigger] text[k] != '\n' && text[k] != '\r',
        is_stable_sort(srt_cues(one_cue_doc(start, end, text)), cue_views(parsed), cue_start_key()),
    ensures
        cue_views(parsed) == seq![CueView { start_ms: start, end_ms: end, text }],
{
    let c = CueView { start_ms: start, end_ms: end, text };
    lemma_one_cue_doc_cues(start, end, text);
    lemma_single_cue_sorted(c);
    crate::sort::lemma_stable_sort_unique(seq![c], cue_views(parsed), seq![c], cue_start_key());
}

/// Splitting at `sep` from `i`, where no `sep` follows: the current piece
/// runs to the end.
proof fn lemma_pieces_to_end(s: Seq<char>, sep: char, i: int, cur: Seq<char>)
    requires
        0 <= i <= s.len(),
        forall|k: int| i <= k < s.len() ==> s[k] != sep,
    ensures
        pieces_from(s, sep, i, cur) == seq![cur + s.subrange(i, s.len() as int)],
    decreases s.len() - i,
{
    if i < s.len() {
        lemma_pieces_to_end(s, sep, i + 1, cur.push(s[i]));
        assert(cur.push(s[i]) + s.subrange(i + 1, s.len() as int) =~= cur + s.subrange(i, s.len() as int));
    } else {
        assert(cur + s.subrange(i, s.len() as int) =~= cur);
    }
}

/// The lines of a line, a line break and a last line with no line break
/// after it: the two lines.
proof fn lemma_last_line_doc(line: Seq<char>, text: Seq<char>)
    requires
        forall|k: int| 0 <= k < line.len() ==> #[trigger] line[k] != '\n' && line[k] != '\r',
        forall|k: int| 0 <= k < text.len() ==> #[trigger] text[k] != '\n' && text[k] != '\r',
        !(line.len() > 0 && line[0] == '\u{feff}'),
    ensures
        srt_lines(line + seq!['\n'] + text) == seq![line, text],
{
    let doc = line + seq!['\n'] + text;
    let m: int = line.len() as int;
    assert forall|k: int| 0 <= k < doc.len() implies #[trigger] doc[k] != '\r' by {
        if k < m {
            assert(doc[k] == line[k]);
        } else if m < k {
            assert(doc[k] == text[k - m - 1]);
        }
    }
    if m > 0 {
        assert(doc[0] == line[0]);
    }
    lemma_plain_lines(doc);
    assert forall|k: int| 0 <= k < m implies doc[k] != '\n' by {
        assert(doc[k] == line[k]);
    }
    lemma_pieces_upto(doc, '\n', 0, m, seq![]);
    assert forall|k: int| m + 1 <= k < doc.len() implies doc[k] != '\n' by {
        assert(doc[k] == text[k - m - 1]);
    }
    lemma_pieces_to_end(doc, '\n', m + 1, seq![]);
    assert(seq![] + doc.subrange(0, m) =~= line);
    assert(seq![] + doc.subrange(m + 1, doc.len() as int) =~= text);
    assert(pieces(doc, '\n') =~= seq![line, text]);
}

/// A timing line followed by a last text line that is not blank gives one
/// cue.
proof fn lemma_last_cue_from(line: Seq<char>, text: Seq<char>, start: int, end: int)
    requires
        line_timing(line) == Some((start, end)),
        !is_blank(text),
    ensures
        cues_from(seq![line, text], 0) == seq![CueView { start_ms: start, end_ms: end, text }],
{
    let lines = seq![line, text];
    assert(lines[0] == line);
    assert(lines[1] == text);
    assert(block_end(lines, 2) == 2);
    assert(block_end(lines, 1) == 2);
    assert(lines.subrange(1, 2) =~= seq![text]);
    assert(cues_from(lines, 2) == Seq::<CueView>::empty());
    assert(cues_from(lines, 0) =~= seq![CueView { start_ms: start, end_ms: end, text }]);
}

/// A timing line `line` that holds the times `start` and `end`, a line
/// break, and a text line that is not blank give exactly one cue with
/// those times and that text, whether or not a line break ends the
/// document (the text line is the last one then).
pub proof fn lemma_srt_single_cue(
    line: Seq<char>,
    text: Seq<char>,
    start: int,
    end: int,
    trailing: bool,
    parsed: Seq<SubCue>,
)
    requires
        line_timing(line) == Some((start, end)),
        forall|k: int| 0 <= k < line.len() ==> #[trigger] line[k] != '\n' && line[k] != '\r',
        !(line.len() > 0 && line[0] == '\u{feff}'),
        !is_blank(text),
        forall|k: int| 0 <= k < text.len() ==> #[trigger] text[k] != '\n' && text[k] != '\r',
        is_stable_sort(
            srt_cues(line + seq!['\n'] + text + (if trailing { seq!['\n'] } else { seq![] })),
            cue_views(parsed),
            cue_start_key(),
        ),
    ensures
        cue_views(parsed) == seq![CueView { start_ms: start, end_ms: end, text }],
{
    let c = CueView { start_ms: start, end_ms: end, text };
    let doc = line + seq!['\n'] + text + (if trailing { seq!['\n'] } else { seq![] });
    if trailing {
        lemma_two_line_doc(line, text);
        lemma_one_cue_from(line, text, start, end);
        assert(doc =~= line + seq!['\n'] + text + seq!['\n']);
    } else {
        lemma_last_line_doc(line, text);
        lemma_last_cue_from(line, text, start, end);
        assert(doc =~= line + seq!['\n'] + text);
    }
    assert(srt_cues(doc) == seq![c]);
    lemma_single_cue_sorted(c);
    crate::sort::lemma_stable_sort_unique(seq![c], cue_views(parsed), seq![c], cue_start_key());
}

/// Splitting the tail of `x + y` from inside `y` is splitting `y` alone.
proof fn lemma_pieces_suffix(x: Seq<char>, y: Seq<char>, sep: char, q: int, cur: Seq<char>)
    requires
        0 <= q,
    ensures
        pieces_from(x + y, sep, x.len() + q, cur) == pieces_from(y, sep, q, cur),
    decreases y.len() - q,
{
    if q < y.len() {
        assert((x + y)[x.len() + q] == y[q]);
        if y[q] == sep {
            lemma_pieces_suffix(x, y, sep, q + 1, seq![]);
        } else {
            lemma_pieces_suffix(x, y, sep, q + 1, cur.push(y[q]));
        }
    }
}

/// A line without a line break, a line break, then the rest: the line is
/// the first piece, the rest's pieces follow.
proof fn lemma_pieces_cons(a: Seq<char>, rest: Seq<char>)
    requires
        forall|k: int| 0 <= k < a.len() ==> #[trigger] a[k] != '\n',
    ensures
        pieces(a + seq!['\n'] + rest, '\n') == seq![a] + pieces(rest, '\n'),
{
    let doc = a + seq!['\n'] + rest;
    let m: int = a.len() as int;
    assert forall|k: int| 0 <= k < m implies doc[k] != '\n' by {
        assert(doc[k] == a[k]);
    }
    lemma_pieces_upto(doc, '\n', 0, m, seq![]);
    assert(seq![] + doc.subrange(0, m) =~= a);
    assert(doc =~= (a + seq!['\n']) + rest);
    lemma_pieces_suffix(a + seq!['\n'], rest, '\n', 0, seq![]);
}

/// A timing line holding `start` and `end`, then two text lines that are
/// not blank, give exactly one cue whose text is the two lines joined with
/// the ASS line break `\N`, whether or not a line break ends the document.
pub proof fn lemma_srt_two_line_cue(
    line: Seq<char>,
    x: Seq<char>,
    y: Seq<char>,
    start: int,
    end: int,
    trailing: bool,
    parsed: Seq<SubCue>,
)
    requires
        line_timing(line) == Some((start, end)),
        forall|k: int| 0 <= k < line.len() ==> #[trigger] line[k] != '\n' && line[k] != '\r',
        !(line.len() > 0 && line[0] == '\u{feff}'),
        !is_blank(x),
        !is_blank(y),
        forall|k: int| 0 <= k < x.len() ==> #[trigger] x[k] != '\n' && x[k] != '\r',
        forall|k: int| 0 <= k < y.len() ==> #[trigger] y[k] != '\n' && y[k] != '\r',
        is_stable_sort(
            srt_cues(line + seq!['\n'] + x + seq!['\n'] + y + (if trailing { seq!['\n'] } else { seq![] })),
            cue_views(parsed),
            cue_start_key(),
        ),
    ensures
        cue_views(parsed) == seq![CueView { start_ms: start, end_ms: end, text: x + seq!['\\', 'N'] + y }],
{
    let tail: Seq<char> = if trailing { seq!['\n'] } else { seq![] };
    let doc = line + seq!['\n'] + x + seq!['\n'] + y + tail;
    let m: int = line.len() as int;
    let n: int = x.len() as int;
    assert forall|k: int| 0 <= k < doc.len() implies #[trigger] doc[k] != '\r' by {
        if k < m {
            assert(doc[k] == line[k]);
        } else if m < k < m + 1 + n {
            assert(doc[k] == x[k - m - 1]);
        } else if m + 1 + n < k < m + 2 + n + y.len() {
            assert(doc[k] == y[k - m - n - 2]);
        }
    }
    if m > 0 {
        assert(doc[0] == line[0]);
    }
    lemma_plain_lines(doc);
    let rest1 = x + seq!['\n'] + (y + tail);
    assert(doc =~= line + seq!['\n'] + rest1);
    lemma_pieces_cons(line, rest1);
    assert forall|k: int| 0 <= k < x.len() implies #[trigger] x[k] != '\n' by {}
    lemma_pieces_cons(x, y + tail);
    let lines = if trailing {
        assert(y + tail =~= y + seq!['\n'] + Seq::<char>::empty());
        assert forall|k: int| 0 <= k < y.len() implies #[trigger] y[k] != '\n' by {}
        lemma_pieces_cons(y, Seq::<char>::empty());
        assert(pieces(Seq::<char>::empty(), '\n') == seq![Seq::<char>::empty()]);
        seq![line, x, y, Seq::<char>::empty()]
    } else {
        assert(y + tail =~= y);
        assert forall|k: int| 0 <= k < y.len() implies y[k] != '\n' by {}
        lemma_pieces_to_end(y, '\n', 0, seq![]);
        assert(seq![] + y.subrange(0, y.len() as int) =~= y);
        seq![line, x, y]
    };
    assert(srt_lines(doc) =~= lines);
    assert(lines[0] == line && lines[1] == x && lines[2] == y);
    if trailing {
        assert(is_blank(lines[3]));
        assert(block_end(lines, 3) == 3);
    } else {
        assert(block_end(lines, 3) == 3);
    }
    assert(block_end(lines, 2) == 3);
    assert(block_end(lines, 1) == 3);
    assert(lines.subrange(1, 3) =~= seq![x, y]);
    assert(join(seq![x, y], seq!['\\', 'N']) == x + seq!['\\', 'N'] + y) by {
        assert(seq![x, y].drop_last() =~= seq![x]);
        assert(join(seq![x], seq!['\\', 'N']) == x);
        assert(seq![x, y].last() == y);
    }
    let c = CueView { start_ms: start, end_ms: end, text: x + seq!['\\', 'N'] + y };
    if trailing {
        assert(cues_from(lines, 4) == Seq::<CueView>::empty());
    } else {
        assert(cues_from(lines, 3) == Seq::<CueView>::empty());
    }
    assert(cues_from(lines, 0) =~= seq![c]);
    assert(srt_cues(doc) == seq![c]);
    lemma_single_cue_sorted(c);
    crate::sort::lemma_stable_sort_unique(seq![c], cue_views(parsed), seq![c], cue_start_key());
}

} // verus!
