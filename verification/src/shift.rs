//! Shifting every timing of an SRT document by a fixed offset.
use vstd::prelude::*;

use crate::error::SubError;
use crate::srt::{
    digit_run, field_value, is_digit_class, lemma_canonical_stamp, lemma_srt_stamp_round_trip,
    lemma_stamp_ms_same, push_srt_stamp,
    srt_stamp_text, stamp_at, stamp_at_exec, stamp_ms, stamp_ms_exec,
};
use crate::text::{chars_of, push_str, string_of};

verus! {

/// The largest time a timestamp `HH:MM:SS,mmm` can spell out.
pub const MAX_STAMP_MS: i64 = 362_439_999;

/// A strict timing `HH:MM:SS,mmm --> HH:MM:SS,mmm` (single spaces, commas)
/// starts at `p`.
pub open spec fn strict_timing_at(l: Seq<char>, p: int) -> bool {
    &&& stamp_at(l, p, false)
    &&& p + 29 <= l.len()
    &&& l[p + 12] == ' '
    &&& l[p + 13] == '-'
    &&& l[p + 14] == '-'
    &&& l[p + 15] == '>'
    &&& l[p + 16] == ' '
    &&& stamp_at(l, p + 17, false)
}

/// `t` clamped at zero.
pub open spec fn clamp0(t: int) -> int {
    if t < 0 {
        0
    } else {
        t
    }
}

/// The text that replaces the timing at `p`: both times moved by `offset`
/// and clamped at zero.
pub open spec fn shifted_timing(l: Seq<char>, p: int, offset: int) -> Seq<char> {
    srt_stamp_text(clamp0(stamp_ms(l, p) + offset)) + seq![' ', '-', '-', '>', ' ']
        + srt_stamp_text(clamp0(stamp_ms(l, p + 17) + offset))
}

/// `l[p..]` with every strict timing, taken leftmost first and without
/// overlap, replaced by its shifted text; everything else is kept.
pub open spec fn shifted_from(l: Seq<char>, p: int, offset: int) -> Seq<char>
    decreases l.len() - p,
{
    if p < 0 || p >= l.len() {
        seq![]
    } else if strict_timing_at(l, p) {
        shifted_timing(l, p, offset) + shifted_from(l, p + 29, offset)
    } else {
        seq![l[p]] + shifted_from(l, p + 1, offset)
    }
}

/// Whether a strict timing starts at `p`.
fn strict_timing_exec(l: &Vec<char>, p: usize) -> (r: bool)
    ensures
        r == strict_timing_at(l@, p as int),
{
    stamp_at_exec(l, p, false) && l.len() - p >= 29 && l[p + 12] == ' ' && l[p + 13] == '-' && l[p
        + 14] == '-' && l[p + 15] == '>' && l[p + 16] == ' ' && stamp_at_exec(l, p + 17, false)
}

/// Appends the shifted text of the strict timing at `p`.
fn push_shifted_timing(out: &mut Vec<char>, l: &Vec<char>, p: usize, offset_ms: i64)
    requires
        strict_timing_at(l@, p as int),
        stamp_ms(l@, p as int) + offset_ms <= i64::MAX,
        stamp_ms(l@, p + 17) + offset_ms <= i64::MAX,
    ensures
        final(out)@ == old(out)@ + shifted_timing(l@, p as int, offset_ms as int),
{
    let ghost before = out@;
    assert(p + 29 <= l.len());
    let start = stamp_ms_exec(l, p) + offset_ms;
    let q = p + 17;
    let end_stamp = stamp_ms_exec(l, q);
    let end = end_stamp + offset_ms;
    push_srt_stamp(
        out,
        if start < 0 {
            0
        } else {
            start
        },
    );
    push_str(out, " --> ");
    proof {
        reveal_strlit(" --> ");
    }
    push_srt_stamp(
        out,
        if end < 0 {
            0
        } else {
            end
        },
    );
    assert(out@ =~= before + shifted_timing(l@, p as int, offset_ms as int));
}

/// Every strict timing that shifting `l[p..]` meets can be moved by
/// `offset` within 64-bit times (both of its times plus `offset` stay at
/// most `i64::MAX`).
pub open spec fn offset_fits(l: Seq<char>, p: int, offset: int) -> bool
    decreases l.len() - p,
{
    if p < 0 || p >= l.len() {
        true
    } else if strict_timing_at(l, p) {
        stamp_ms(l, p) + offset <= i64::MAX && stamp_ms(l, p + 17) + offset <= i64::MAX && offset_fits(
            l,
            p + 29,
            offset,
        )
    } else {
        offset_fits(l, p + 1, offset)
    }
}

/// Whether every timing of `content` can be moved by `offset_ms` within
/// 64-bit times (a document without timings always can).
pub fn offset_fits_in(content: &str, offset_ms: i64) -> (r: bool)
    ensures
        r == offset_fits(content@, 0, offset_ms as int),
{
    let l = chars_of(content);
    let mut p: usize = 0;
    while p < l.len()
        invariant
            p <= l@.len(),
            l@ == content@,
            offset_fits(l@, 0, offset_ms as int) == offset_fits(l@, p as int, offset_ms as int),
        decreases l@.len() - p,
    {
        if strict_timing_exec(&l, p) {
            assert(p + 29 <= l.len());
            let s = stamp_ms_exec(&l, p);
            let e = stamp_ms_exec(&l, p + 17);
            if offset_ms > i64::MAX - s || offset_ms > i64::MAX - e {
                return false;
            }
            p += 29;
        } else {
            p += 1;
        }
    }
    true
}

/// Moves every timing of an SRT document by `offset_ms` milliseconds;
/// times that would fall before zero become zero.  It never fails.  Every
/// timing moved must stay within 64-bit times.
pub fn apply_offset(content: &str, offset_ms: i64) -> (r: Result<String, SubError>)
    requires
        offset_fits(content@, 0, offset_ms as int),
    ensures
        r matches Ok(s) && s@ == shifted_from(content@, 0, offset_ms as int),
{
    let l = chars_of(content);
    let mut out: Vec<char> = Vec::new();
    let mut p: usize = 0;
    while p < l.len()
        invariant
            p <= l@.len(),
            l@ == content@,
            offset_fits(l@, p as int, offset_ms as int),
            out@ + shifted_from(l@, p as int, offset_ms as int) == shifted_from(
                l@,
                0,
                offset_ms as int,
            ),
        decreases l@.len() - p,
    {
        let ghost before = out@;
        if strict_timing_exec(&l, p) {
            push_shifted_timing(&mut out, &l, p, offset_ms);
            assert(out@ + shifted_from(l@, p + 29, offset_ms as int) =~= before + shifted_from(
                l@,
                p as int,
                offset_ms as int,
            ));
            p += 29;
        } else {
            out.push(l[p]);
            assert(out@ + shifted_from(l@, p + 1, offset_ms as int) =~= before + shifted_from(
                l@,
                p as int,
                offset_ms as int,
            ));
            p += 1;
        }
    }
    Ok(string_of(&out))
}


/// The timing line `start --> end` as SRT writes it.
pub open spec fn timing_line(start: int, end: int) -> Seq<char> {
    srt_stamp_text(start) + " --> "@ + srt_stamp_text(end)
}

/// Shifting a timing line moves both times: for times that stay within 0
/// and 100 hours, the line for `start`, `end` becomes the line for
/// `start + offset`, `end + offset`.
#[verifier::spinoff_prover]
pub proof fn lemma_shift_timing_line(start: int, end: int, offset: int)
    requires
        0 <= start < 360_000_000,
        0 <= end < 360_000_000,
        0 <= start + offset < 360_000_000,
        0 <= end + offset < 360_000_000,
    ensures
        shifted_from(timing_line(start, end), 0, offset) == timing_line(start + offset, end + offset),
{
    reveal_strlit(" --> ");
    lemma_timing_line_reads(start, end);
    let l = timing_line(start, end);
    assert(shifted_from(l, 29, offset) == Seq::<char>::empty());
    assert(shifted_from(l, 0, offset) == shifted_timing(l, 0, offset) + shifted_from(l, 29, offset));
    assert(shifted_timing(l, 0, offset) =~= timing_line(start + offset, end + offset));
    assert(shifted_from(l, 0, offset) =~= timing_line(start + offset, end + offset));
}

/// A written timing line is a strict timing holding its two times.
proof fn lemma_timing_line_reads(start: int, end: int)
    requires
        0 <= start < 360_000_000,
        0 <= end < 360_000_000,
    ensures
        timing_line(start, end).len() == 29,
        strict_timing_at(timing_line(start, end), 0),
        stamp_ms(timing_line(start, end), 0) == start,
        stamp_ms(timing_line(start, end), 17) == end,
{
    reveal_strlit(" --> ");
    lemma_srt_stamp_round_trip(start);
    lemma_srt_stamp_round_trip(end);
    let a = srt_stamp_text(start);
    let b = srt_stamp_text(end);
    let l = timing_line(start, end);
    assert(l.len() == 29);
    assert(l.subrange(0, 12) =~= a);
    assert(l.subrange(17, 29) =~= b);
    assert(stamp_at(l, 0, false)) by {
        assert forall|k: int| 0 <= k < 12 implies l[k] == a[k] by {}
    }
    assert(stamp_at(l, 17, false)) by {
        assert forall|k: int| 0 <= k < 12 implies l[17 + k] == b[k] by {}
    }
    assert(strict_timing_at(l, 0));
    assert(stamp_ms(l, 0) == start) by {
        assert(a.subrange(0, 12) =~= a);
        lemma_stamp_ms_same(l, 0, a, 0);
    }
    assert(stamp_ms(l, 17) == end) by {
        assert(b.subrange(0, 12) =~= b);
        lemma_stamp_ms_same(l, 17, b, 0);
    }
}

/// Shifting a timing line back undoes shifting it: moving by `offset` and
/// then by `-offset` gives the line back, when no time leaves 0 to 100
/// hours.
pub proof fn lemma_shift_undo(start: int, end: int, offset: int)
    requires
        0 <= start < 360_000_000,
        0 <= end < 360_000_000,
        0 <= start + offset < 360_000_000,
        0 <= end + offset < 360_000_000,
    ensures
        shifted_from(shifted_from(timing_line(start, end), 0, offset), 0, -offset) == timing_line(start, end),
{
    lemma_shift_timing_line(start, end, offset);
    lemma_shift_timing_line(start + offset, end + offset, -offset);
}

// ---------------------------------------------------------------- composing shifts

/// A timestamp reads the same from two texts that agree on its twelve
/// characters.
proof fn lemma_stamp_at_same(l1: Seq<char>, p1: int, l2: Seq<char>, p2: int)
    requires
        0 <= p1,
        p1 + 12 <= l1.len(),
        0 <= p2,
        p2 + 12 <= l2.len(),
        forall|k: int| 0 <= k < 12 ==> #[trigger] l1[p1 + k] == l2[p2 + k],
    ensures
        stamp_at(l1, p1, false) == stamp_at(l2, p2, false),
        stamp_ms(l1, p1) == stamp_ms(l2, p2),
{
    assert(l1[p1 + 2] == l2[p2 + 2] && l1[p1 + 5] == l2[p2 + 5] && l1[p1 + 8] == l2[p2 + 8]) by {
        assert(l1[p1 + 2] == l2[p2 + 2]);
        assert(l1[p1 + 5] == l2[p2 + 5]);
        assert(l1[p1 + 8] == l2[p2 + 8]);
    }
    assert(digit_run(l1, p1, 2) == digit_run(l2, p2, 2)) by {
        if digit_run(l1, p1, 2) {
            assert forall|k: int| p2 <= k < p2 + 2 implies is_digit_class(#[trigger] l2[k]) by {
                assert(l1[p1 + (k - p2)] == l2[p2 + (k - p2)]);
            }
        }
        if digit_run(l2, p2, 2) {
            assert forall|k: int| p1 <= k < p1 + 2 implies is_digit_class(#[trigger] l1[k]) by {
                assert(l1[p1 + (k - p1)] == l2[p2 + (k - p1)]);
            }
        }
    }
    assert(digit_run(l1, p1 + 3, 2) == digit_run(l2, p2 + 3, 2)) by {
        if digit_run(l1, p1 + 3, 2) {
            assert forall|k: int| p2 + 3 <= k < p2 + 5 implies is_digit_class(#[trigger] l2[k]) by {
                assert(l1[p1 + (k - p2)] == l2[p2 + (k - p2)]);
            }
        }
        if digit_run(l2, p2 + 3, 2) {
            assert forall|k: int| p1 + 3 <= k < p1 + 5 implies is_digit_class(#[trigger] l1[k]) by {
                assert(l1[p1 + (k - p1)] == l2[p2 + (k - p1)]);
            }
        }
    }
    assert(digit_run(l1, p1 + 6, 2) == digit_run(l2, p2 + 6, 2)) by {
        if digit_run(l1, p1 + 6, 2) {
            assert forall|k: int| p2 + 6 <= k < p2 + 8 implies is_digit_class(#[trigger] l2[k]) by {
                assert(l1[p1 + (k - p2)] == l2[p2 + (k - p2)]);
            }
        }
        if digit_run(l2, p2 + 6, 2) {
            assert forall|k: int| p1 + 6 <= k < p1 + 8 implies is_digit_class(#[trigger] l1[k]) by {
                assert(l1[p1 + (k - p1)] == l2[p2 + (k - p1)]);
            }
        }
    }
    assert(digit_run(l1, p1 + 9, 3) == digit_run(l2, p2 + 9, 3)) by {
        if digit_run(l1, p1 + 9, 3) {
            assert forall|k: int| p2 + 9 <= k < p2 + 12 implies is_digit_class(#[trigger] l2[k]) by {
                assert(l1[p1 + (k - p2)] == l2[p2 + (k - p2)]);
            }
        }
        if digit_run(l2, p2 + 9, 3) {
            assert forall|k: int| p1 + 9 <= k < p1 + 12 implies is_digit_class(#[trigger] l1[k]) by {
                assert(l1[p1 + (k - p1)] == l2[p2 + (k - p1)]);
            }
        }
    }
    assert(l1.subrange(p1, p1 + 12) =~= l2.subrange(p2, p2 + 12)) by {
        assert forall|k: int| 0 <= k < 12 implies #[trigger] l1.subrange(p1, p1 + 12)[k] == l2.subrange(p2, p2 + 12)[k] by {
            assert(l1[p1 + k] == l2[p2 + k]);
        }
    }
    lemma_stamp_ms_same(l1, p1, l2, p2);
}

/// A strict timing, and the times it holds, read the same from two texts
/// that agree on its 29 characters.
proof fn lemma_timing_same(l1: Seq<char>, p1: int, l2: Seq<char>, p2: int)
    requires
        0 <= p1,
        p1 + 29 <= l1.len(),
        0 <= p2,
        p2 + 29 <= l2.len(),
        forall|k: int| 0 <= k < 29 ==> #[trigger] l1[p1 + k] == l2[p2 + k],
    ensures
        strict_timing_at(l1, p1) == strict_timing_at(l2, p2),
        stamp_ms(l1, p1) == stamp_ms(l2, p2),
        stamp_ms(l1, p1 + 17) == stamp_ms(l2, p2 + 17),
{
    lemma_stamp_at_same(l1, p1, l2, p2);
    assert forall|k: int| 0 <= k < 12 implies #[trigger] l1[p1 + 17 + k] == l2[p2 + 17 + k] by {
        assert(l1[p1 + (17 + k)] == l2[p2 + (17 + k)]);
    }
    lemma_stamp_at_same(l1, p1 + 17, l2, p2 + 17);
    assert(l1[p1 + 12] == l2[p2 + 12] && l1[p1 + 13] == l2[p2 + 13] && l1[p1 + 14] == l2[p2 + 14]);
    assert(l1[p1 + 15] == l2[p2 + 15] && l1[p1 + 16] == l2[p2 + 16]);
}

/// Shifting the tail of `x + y` from inside `y` is shifting `y` alone.
proof fn lemma_shift_suffix(x: Seq<char>, y: Seq<char>, q: int, off: int)
    requires
        0 <= q,
    ensures
        shifted_from(x + y, x.len() + q, off) == shifted_from(y, q, off),
    decreases y.len() - q,
{
    let l = x + y;
    let p = x.len() + q;
    if q < y.len() {
        if q + 29 <= y.len() {
            assert forall|k: int| 0 <= k < 29 implies #[trigger] l[p + k] == y[q + k] by {}
            lemma_timing_same(l, p, y, q);
        }
        if strict_timing_at(y, q) {
            lemma_shift_suffix(x, y, q + 29, off);
            assert(shifted_timing(l, p, off) == shifted_timing(y, q, off));
        } else {
            lemma_shift_suffix(x, y, q + 1, off);
        }
    }
}

/// Whether timings fit from inside `y` does not depend on what comes before.
proof fn lemma_fits_suffix(x: Seq<char>, y: Seq<char>, q: int, off: int)
    requires
        0 <= q,
    ensures
        offset_fits(x + y, x.len() + q, off) == offset_fits(y, q, off),
    decreases y.len() - q,
{
    let l = x + y;
    let p = x.len() + q;
    if q < y.len() {
        if q + 29 <= y.len() {
            assert forall|k: int| 0 <= k < 29 implies #[trigger] l[p + k] == y[q + k] by {}
            lemma_timing_same(l, p, y, q);
        }
        if strict_timing_at(y, q) {
            lemma_fits_suffix(x, y, q + 29, off);
        } else {
            lemma_fits_suffix(x, y, q + 1, off);
        }
    }
}

/// `x` and `y` have the same shape: equal lengths, and at every position
/// both hold a digit or both hold the same character.
pub open spec fn same_shape(x: Seq<char>, y: Seq<char>) -> bool {
    &&& x.len() == y.len()
    &&& forall|i: int| 0 <= i < x.len() ==> (is_digit_class(#[trigger] x[i]) && is_digit_class(y[i])) || x[i] == y[i]
}

/// A timestamp at `p` reads as one in two texts of the same shape.
proof fn lemma_stamp_at_shape(x: Seq<char>, y: Seq<char>, p: int)
    requires
        same_shape(x, y),
        0 <= p,
        p + 12 <= x.len(),
    ensures
        stamp_at(x, p, false) == stamp_at(y, p, false),
{
    assert forall|k: int| p <= k < p + 12 implies is_digit_class(#[trigger] x[k]) == is_digit_class(y[k]) by {
        assert((is_digit_class(x[k]) && is_digit_class(y[k])) || x[k] == y[k]);
    }
    assert(x[p + 2] == ':' <==> y[p + 2] == ':') by {
        assert((is_digit_class(x[p + 2]) && is_digit_class(y[p + 2])) || x[p + 2] == y[p + 2]);
    }
    assert(x[p + 5] == ':' <==> y[p + 5] == ':') by {
        assert((is_digit_class(x[p + 5]) && is_digit_class(y[p + 5])) || x[p + 5] == y[p + 5]);
    }
    assert(x[p + 8] == ',' <==> y[p + 8] == ',') by {
        assert((is_digit_class(x[p + 8]) && is_digit_class(y[p + 8])) || x[p + 8] == y[p + 8]);
    }
    assert(digit_run(x, p, 2) == digit_run(y, p, 2)) by {
        if digit_run(y, p, 2) {
            assert forall|k: int| p <= k < p + 2 implies is_digit_class(#[trigger] x[k]) by {
                assert(is_digit_class(y[k]));
                assert((is_digit_class(x[k]) && is_digit_class(y[k])) || x[k] == y[k]);
            }
        }
        if digit_run(x, p, 2) {
            assert forall|k: int| p <= k < p + 2 implies is_digit_class(#[trigger] y[k]) by {
                assert(is_digit_class(x[k]));
                assert((is_digit_class(x[k]) && is_digit_class(y[k])) || x[k] == y[k]);
            }
        }
    }
    assert(digit_run(x, p + 3, 2) == digit_run(y, p + 3, 2)) by {
        if digit_run(y, p + 3, 2) {
            assert forall|k: int| p + 3 <= k < p + 5 implies is_digit_class(#[trigger] x[k]) by {
                assert(is_digit_class(y[k]));
                assert((is_digit_class(x[k]) && is_digit_class(y[k])) || x[k] == y[k]);
            }
        }
        if digit_run(x, p + 3, 2) {
            assert forall|k: int| p + 3 <= k < p + 5 implies is_digit_class(#[trigger] y[k]) by {
                assert(is_digit_class(x[k]));
                assert((is_digit_class(x[k]) && is_digit_class(y[k])) || x[k] == y[k]);
            }
        }
    }
    assert(digit_run(x, p + 6, 2) == digit_run(y, p + 6, 2)) by {
        if digit_run(y, p + 6, 2) {
            assert forall|k: int| p + 6 <= k < p + 8 implies is_digit_class(#[trigger] x[k]) by {
                assert(is_digit_class(y[k]));
                assert((is_digit_class(x[k]) && is_digit_class(y[k])) || x[k] == y[k]);
            }
        }
        if digit_run(x, p + 6, 2) {
            assert forall|k: int| p + 6 <= k < p + 8 implies is_digit_class(#[trigger] y[k]) by {
                assert(is_digit_class(x[k]));
                assert((is_digit_class(x[k]) && is_digit_class(y[k])) || x[k] == y[k]);
            }
        }
    }
    assert(digit_run(x, p + 9, 3) == digit_run(y, p + 9, 3)) by {
        if digit_run(y, p + 9, 3) {
            assert forall|k: int| p + 9 <= k < p + 12 implies is_digit_class(#[trigger] x[k]) by {
                assert(is_digit_class(y[k]));
                assert((is_digit_class(x[k]) && is_digit_class(y[k])) || x[k] == y[k]);
            }
        }
        if digit_run(x, p + 9, 3) {
            assert forall|k: int| p + 9 <= k < p + 12 implies is_digit_class(#[trigger] y[k]) by {
                assert(is_digit_class(x[k]));
                assert((is_digit_class(x[k]) && is_digit_class(y[k])) || x[k] == y[k]);
            }
        }
    }
}

/// A strict timing starts at `p` in both of two texts of the same shape or
/// in neither.
proof fn lemma_timing_shape(x: Seq<char>, y: Seq<char>, p: int)
    requires
        same_shape(x, y),
        0 <= p,
    ensures
        strict_timing_at(x, p) == strict_timing_at(y, p),
{
    if p + 29 <= x.len() {
        lemma_stamp_at_shape(x, y, p);
        lemma_stamp_at_shape(x, y, p + 17);
        assert forall|k: int| p + 12 <= k < p + 17 && (#[trigger] x[k] == '-' || x[k] == ' ' || x[k] == '>') implies x[k] == y[k] by {
            assert((is_digit_class(x[k]) && is_digit_class(y[k])) || x[k] == y[k]);
        }
        assert forall|k: int| p + 12 <= k < p + 17 && (#[trigger] y[k] == '-' || y[k] == ' ' || y[k] == '>') implies x[k] == y[k] by {
            assert((is_digit_class(x[k]) && is_digit_class(y[k])) || x[k] == y[k]);
        }
    }
}

/// The written form of a time has the shape of any strict timestamp.
proof fn lemma_written_stamp_shape(l: Seq<char>, p: int, ms: int)
    requires
        0 <= ms < 360_000_000,
        0 <= p,
        p + 12 <= l.len(),
        stamp_at(l, p, false),
    ensures
        same_shape(srt_stamp_text(ms), l.subrange(p, p + 12)),
{
    lemma_srt_stamp_round_trip(ms);
    let t = srt_stamp_text(ms);
    let u = l.subrange(p, p + 12);
    assert forall|i: int| 0 <= i < 12 implies (is_digit_class(#[trigger] t[i]) && is_digit_class(u[i])) || t[i] == u[i] by {
        assert(u[i] == l[p + i]);
        if i == 2 || i == 5 || i == 8 {
        } else if i < 2 {
            assert(digit_run(t, 0, 2) && digit_run(l, p, 2));
            assert(is_digit_class(l[p + i]));
        } else if i < 5 {
            assert(digit_run(t, 3, 2) && digit_run(l, p + 3, 2));
            assert(is_digit_class(l[p + i]));
        } else if i < 8 {
            assert(digit_run(t, 6, 2) && digit_run(l, p + 6, 2));
            assert(is_digit_class(l[p + i]));
        } else {
            assert(digit_run(t, 9, 3) && digit_run(l, p + 9, 3));
            assert(is_digit_class(l[p + i]));
        }
    }
}

/// Shapes concatenate.
proof fn lemma_shape_concat(x1: Seq<char>, y1: Seq<char>, x2: Seq<char>, y2: Seq<char>)
    requires
        same_shape(x1, y1),
        same_shape(x2, y2),
    ensures
        same_shape(x1 + x2, y1 + y2),
{
    assert forall|i: int| 0 <= i < (x1 + x2).len() implies (is_digit_class(#[trigger] (x1 + x2)[i]) && is_digit_class((y1 + y2)[i])) || (x1 + x2)[i] == (y1 + y2)[i] by {
        if i < x1.len() {
            assert((is_digit_class(x1[i]) && is_digit_class(y1[i])) || x1[i] == y1[i]);
        } else {
            assert((is_digit_class(x2[i - x1.len()]) && is_digit_class(y2[i - x1.len()])) || x2[i - x1.len()] == y2[i - x1.len()]);
        }
    }
}

/// Both times of the strict timing at `p`, moved by `a` and then by `b`,
/// stay within 0 and 100 hours.
pub open spec fn timing_fits(l: Seq<char>, p: int, a: int, b: int) -> bool {
    &&& 0 <= stamp_ms(l, p) + a < 360_000_000
    &&& 0 <= stamp_ms(l, p) + a + b < 360_000_000
    &&& 0 <= stamp_ms(l, p + 17) + a < 360_000_000
    &&& 0 <= stamp_ms(l, p + 17) + a + b < 360_000_000
}

/// Every strict timing that shifting `l[p..]` meets fits moving by `a`
/// and then by `b`.
pub open spec fn shifts_fit(l: Seq<char>, p: int, a: int, b: int) -> bool
    decreases l.len() - p,
{
    if p < 0 || p >= l.len() {
        true
    } else if strict_timing_at(l, p) {
        timing_fits(l, p, a, b) && shifts_fit(l, p + 29, a, b)
    } else {
        shifts_fit(l, p + 1, a, b)
    }
}

/// Shifting keeps the shape of the text when the moved times stay within
/// 100 hours.
proof fn lemma_shift_shape(l: Seq<char>, p: int, a: int, b: int)
    requires
        0 <= p <= l.len(),
        shifts_fit(l, p, a, b),
    ensures
        same_shape(shifted_from(l, p, a), l.skip(p)),
    decreases l.len() - p,
{
    if p == l.len() {
        assert(l.skip(p) =~= Seq::<char>::empty());
    } else if strict_timing_at(l, p) {
        lemma_shift_shape(l, p + 29, a, b);
        let s1 = clamp0(stamp_ms(l, p) + a);
        let s2 = clamp0(stamp_ms(l, p + 17) + a);
        lemma_written_stamp_shape(l, p, s1);
        lemma_written_stamp_shape(l, p + 17, s2);
        let mid = seq![' ', '-', '-', '>', ' '];
        assert(same_shape(mid, l.subrange(p + 12, p + 17))) by {
            assert forall|i: int| 0 <= i < 5 implies (is_digit_class(#[trigger] mid[i]) && is_digit_class(l.subrange(p + 12, p + 17)[i])) || mid[i] == l.subrange(p + 12, p + 17)[i] by {
                assert(l.subrange(p + 12, p + 17)[i] == l[p + 12 + i]);
            }
        }
        lemma_shape_concat(srt_stamp_text(s1), l.subrange(p, p + 12), mid, l.subrange(p + 12, p + 17));
        lemma_shape_concat(
            srt_stamp_text(s1) + mid,
            l.subrange(p, p + 12) + l.subrange(p + 12, p + 17),
            srt_stamp_text(s2),
            l.subrange(p + 17, p + 29),
        );
        lemma_shape_concat(
            srt_stamp_text(s1) + mid + srt_stamp_text(s2),
            l.subrange(p, p + 12) + l.subrange(p + 12, p + 17) + l.subrange(p + 17, p + 29),
            shifted_from(l, p + 29, a),
            l.skip(p + 29),
        );
        assert(l.skip(p) =~= l.subrange(p, p + 12) + l.subrange(p + 12, p + 17) + l.subrange(p + 17, p + 29)
            + l.skip(p + 29));
    } else {
        lemma_shift_shape(l, p + 1, a, b);
        lemma_shape_concat(seq![l[p]], seq![l[p]], shifted_from(l, p + 1, a), l.skip(p + 1));
        assert(l.skip(p) =~= seq![l[p]] + l.skip(p + 1));
    }
}

/// A strict timing starts at `p` in `l` exactly when one starts at 0 in
/// `l[p..]`.
proof fn lemma_timing_skip(l: Seq<char>, p: int)
    requires
        0 <= p <= l.len(),
    ensures
        strict_timing_at(l.skip(p), 0) == strict_timing_at(l, p),
{
    if p + 29 <= l.len() {
        assert forall|k: int| 0 <= k < 29 implies #[trigger] l.skip(p)[0 + k] == l[p + k] by {}
        lemma_timing_same(l.skip(p), 0, l, p);
    }
}

/// Shifting `l[p..]` by `a` and the result by `b` is shifting it by
/// `a + b`, when every time it meets stays within 0 and 100 hours.
proof fn lemma_shift_compose_from(l: Seq<char>, p: int, a: int, b: int)
    requires
        0 <= p <= l.len(),
        shifts_fit(l, p, a, b),
    ensures
        shifted_from(shifted_from(l, p, a), 0, b) == shifted_from(l, p, a + b),
        offset_fits(l, p, a),
        offset_fits(l, p, a + b),
        offset_fits(shifted_from(l, p, a), 0, b),
    decreases l.len() - p,
{
    if p == l.len() {
        assert(shifted_from(l, p, a) == Seq::<char>::empty());
    } else if strict_timing_at(l, p) {
        let st = stamp_ms(l, p) + a;
        let en = stamp_ms(l, p + 17) + a;
        let t = shifted_timing(l, p, a);
        let r = shifted_from(l, p + 29, a);
        reveal_strlit(" --> ");
        assert(t =~= timing_line(st, en));
        lemma_timing_line_reads(st, en);
        let sq = t + r;
        assert(sq == shifted_from(l, p, a));
        assert forall|k: int| 0 <= k < 29 implies #[trigger] sq[0 + k] == t[0 + k] by {}
        lemma_timing_same(sq, 0, t, 0);
        lemma_shift_suffix(t, r, 0, b);
        lemma_fits_suffix(t, r, 0, b);
        assert(t.len() + 0 == 29);
        lemma_shift_compose_from(l, p + 29, a, b);
        assert(shifted_timing(sq, 0, b) == shifted_timing(l, p, a + b));
        assert(shifted_from(sq, 0, b) == shifted_timing(sq, 0, b) + shifted_from(sq, 29, b));
    } else {
        let r = shifted_from(l, p + 1, a);
        let sq = seq![l[p]] + r;
        assert(sq == shifted_from(l, p, a));
        lemma_shift_shape(l, p, a, b);
        lemma_timing_shape(sq, l.skip(p), 0);
        lemma_timing_skip(l, p);
        lemma_shift_suffix(seq![l[p]], r, 0, b);
        lemma_fits_suffix(seq![l[p]], r, 0, b);
        lemma_shift_compose_from(l, p + 1, a, b);
        assert(sq[0] == l[p]);
        assert(shifted_from(sq, 0, b) == seq![l[p]] + shifted_from(sq, 1, b));
    }
}

/// Shifting a document by `a` and then by `b` is shifting it by `a + b`
/// (what [`apply_offset`] gives for each), when every timing it holds stays
/// within 0 and 100 hours after each move; the three shifts are then all
/// within what [`apply_offset`] accepts.
pub proof fn lemma_shift_compose(content: Seq<char>, a: int, b: int)
    requires
        shifts_fit(content, 0, a, b),
    ensures
        shifted_from(shifted_from(content, 0, a), 0, b) == shifted_from(content, 0, a + b),
        offset_fits(content, 0, a),
        offset_fits(content, 0, a + b),
        offset_fits(shifted_from(content, 0, a), 0, b),
{
    lemma_shift_compose_from(content, 0, a, b);
}

/// The timestamp at `p` is written as SRT writes it: minutes and seconds
/// below 60.
pub open spec fn canonical_stamp(l: Seq<char>, p: int) -> bool {
    field_value(l, p + 3, 2) < 60 && field_value(l, p + 6, 2) < 60
}

/// Every strict timing that shifting `l[p..]` meets is written as SRT
/// writes it.
pub open spec fn canonical_from(l: Seq<char>, p: int) -> bool
    decreases l.len() - p,
{
    if p < 0 || p >= l.len() {
        true
    } else if strict_timing_at(l, p) {
        canonical_stamp(l, p) && canonical_stamp(l, p + 17) && canonical_from(l, p + 29)
    } else {
        canonical_from(l, p + 1)
    }
}

proof fn lemma_shift_zero_from(l: Seq<char>, p: int)
    requires
        0 <= p <= l.len(),
        canonical_from(l, p),
    ensures
        shifted_from(l, p, 0) == l.skip(p),
        offset_fits(l, p, 0),
    decreases l.len() - p,
{
    if p == l.len() {
        assert(l.skip(p) =~= Seq::<char>::empty());
    } else if strict_timing_at(l, p) {
        lemma_shift_zero_from(l, p + 29);
        lemma_canonical_stamp(l, p);
        lemma_canonical_stamp(l, p + 17);
        assert(l.skip(p) =~= l.subrange(p, p + 12) + seq![' ', '-', '-', '>', ' '] + l.subrange(p + 17, p + 29)
            + l.skip(p + 29));
    } else {
        lemma_shift_zero_from(l, p + 1);
        assert(l.skip(p) =~= seq![l[p]] + l.skip(p + 1));
    }
}

/// Shifting by zero leaves a document as it is, when its timings are
/// written as SRT writes them (minutes and seconds below 60); such a shift
/// is within what [`apply_offset`] accepts.
pub proof fn lemma_shift_zero(content: Seq<char>)
    requires
        canonical_from(content, 0),
    ensures
        shifted_from(content, 0, 0) == content,
        offset_fits(content, 0, 0),
{
    lemma_shift_zero_from(content, 0);
    assert(content.skip(0) =~= content);
}

} // verus!
