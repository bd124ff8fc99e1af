//! The BitTorrent tracker list kept on disk: one tracker URL per line.
use vstd::prelude::*;

use crate::text::{chars_blank, chars_of, is_blank, lemma_pieces_nonempty, pieces, split_char, string_of};

verus! {

/// `l` without one trailing carriage return.
pub open spec fn strip_cr(l: Seq<char>) -> Seq<char> {
    if l.len() > 0 && l.last() == '\r' {
        l.drop_last()
    } else {
        l
    }
}

/// The test "the line is not blank".
pub open spec fn not_blank() -> spec_fn(Seq<char>) -> bool {
    |l: Seq<char>| !is_blank(l)
}

/// The lines of `s` as `str::lines` gives them: split at `\n`, a `\r`
/// before a `\n` dropped, and no empty line after a final `\n`.
pub open spec fn std_lines(s: Seq<char>) -> Seq<Seq<char>> {
    let p = pieces(s, '\n');
    if s.len() == 0 {
        seq![]
    } else if s.last() == '\n' {
        p.drop_last().map_values(|l: Seq<char>| strip_cr(l))
    } else {
        p.drop_last().map_values(|l: Seq<char>| strip_cr(l)).push(p.last())
    }
}

/// The trackers of a tracker list: its lines that are not blank.
pub open spec fn tracker_lines(content: Seq<char>) -> Seq<Seq<char>> {
    std_lines(content).filter(not_blank())
}

/// The texts of strings.
pub open spec fn string_views(s: Seq<String>) -> Seq<Seq<char>> {
    s.map_values(|x: String| x@)
}

/// `l` without one trailing carriage return.
fn strip_cr_exec(l: &Vec<char>) -> (r: Vec<char>)
    ensures
        r@ == strip_cr(l@),
{
    let mut n = l.len();
    if n > 0 && l[n - 1] == '\r' {
        n -= 1;
    }
    let mut out: Vec<char> = Vec::new();
    let mut i: usize = 0;
    while i < n
        invariant
            n <= l@.len(),
            i <= n,
            out@ == l@.take(i as int),
        decreases n - i,
    {
        out.push(l[i]);
        assert(l@.take(i + 1) =~= l@.take(i as int).push(l@[i as int]));
        i += 1;
    }
    assert(out@ =~= strip_cr(l@));
    out
}

/// The trackers listed in the text of a tracker list: every line that is
/// not blank, in order.
pub fn parse_trackers(content: &str) -> (r: Vec<String>)
    ensures
        string_views(r@) == tracker_lines(content@),
{
    let s = chars_of(content);
    let parts = split_char(&s, '\n');
    proof {
        lemma_pieces_nonempty(s@, '\n');
    }
    let ghost p = pieces(s@, '\n');
    let ghost lines = std_lines(s@);
    let n = parts.len();
    let count: usize = if s.len() == 0 {
        0
    } else if s[s.len() - 1] == '\n' {
        n - 1
    } else {
        n
    };
    assert(count == lines.len());
    let mut out: Vec<String> = Vec::new();
    let mut k: usize = 0;
    while k < count
        invariant
            k <= count,
            count == lines.len(),
            lines == std_lines(s@),
            p == pieces(s@, '\n'),
            n == p.len(),
            n >= 1,
            parts@.len() == n,
            count <= n,
            forall|j: int| 0 <= j < n ==> (#[trigger] parts@[j])@ == p[j],
            string_views(out@) == lines.take(k as int).filter(not_blank()),
        decreases count - k,
    {
        let line = if k + 1 < n {
            strip_cr_exec(&parts[k])
        } else {
            let same = parts[k].clone();
            assert(same@ =~= parts@[k as int]@);
            same
        };
        assert(line@ == lines[k as int]);
        proof {
            assert(lines.take(k + 1) =~= lines.take(k as int).push(lines[k as int]));
            lines.take(k as int).lemma_filter_push(lines[k as int], not_blank());
        }
        if !chars_blank(&line) {
            let ghost before = out@;
            out.push(string_of(&line));
            assert(string_views(out@) =~= string_views(before).push(line@));
        }
        k += 1;
    }
    assert(lines.take(count as int) =~= lines);
    out
}

} // verus!
