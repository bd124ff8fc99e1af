use vstd::prelude::*;

verus! {

/// The Unicode `White_Space` property: what `char::is_whitespace`, `str::trim`
/// and `str::split_whitespace` treat as blank.
pub open spec fn is_ws(c: char) -> bool {
    let u = c as u32;
    ||| (0x09 <= u && u <= 0x0d)
    ||| u == 0x20
    ||| u == 0x85
    ||| u == 0xa0
    ||| u == 0x1680
    ||| (0x2000 <= u && u <= 0x200a)
    ||| u == 0x2028
    ||| u == 0x2029
    ||| u == 0x202f
    ||| u == 0x205f
    ||| u == 0x3000
}

/// Executable test for [`is_ws`].
pub fn is_white_space(c: char) -> (r: bool)
    ensures
        r == is_ws(c),
{
    let u = c as u32;
    (0x09 <= u && u <= 0x0d) || u == 0x20 || u == 0x85 || u == 0xa0 || u == 0x1680 || (0x2000
        <= u && u <= 0x200a) || u == 0x2028 || u == 0x2029 || u == 0x202f || u == 0x205f || u
        == 0x3000
}

} // verus!

verus! {

/// The characters of `s`, in order.
pub fn chars_of(s: &str) -> (v: Vec<char>)
    ensures
        v@ == s@,
{
    let mut v: Vec<char> = Vec::new();
    for c in it: s.chars()
        invariant
            it.seq() == s@,
            v@ == it.seq().take(it.index() as int),
    {
        v.push(c);
    }
    v
}

} // verus!

verus! {

/// A `String` holding the characters of `v`, in order.
#[verifier::external_body]
pub(crate) fn string_of(v: &Vec<char>) -> (s: String)
    ensures
        s@ == v@,
{
    v.iter().collect()
}

/// Whether two character sequences are equal.
pub fn chars_eq(a: &Vec<char>, b: &Vec<char>) -> (r: bool)
    ensures
        r == (a@ == b@),
{
    if a.len() != b.len() {
        return false;
    }
    let mut i: usize = 0;
    while i < a.len()
        invariant
            a.len() == b.len(),
            i <= a.len(),
            forall|j: int| 0 <= j < i ==> a@[j] == b@[j],
        decreases a.len() - i,
    {
        if a[i] != b[i] {
            return false;
        }
        i += 1;
    }
    assert(a@ =~= b@);
    true
}

/// Whether the characters in `a` spell out `s`.
pub fn chars_eq_str(a: &Vec<char>, s: &str) -> (r: bool)
    ensures
        r == (a@ == s@),
{
    let b = chars_of(s);
    chars_eq(a, &b)
}

/// Appends the characters of `s` to `out`.
pub fn push_str(out: &mut Vec<char>, s: &str)
    ensures
        final(out)@ == old(out)@ + s@,
{
    let b = chars_of(s);
    push_all(out, &b);
}

/// Appends the characters of `b` to `out`.
pub fn push_all(out: &mut Vec<char>, b: &Vec<char>)
    ensures
        final(out)@ == old(out)@ + b@,
{
    let ghost start = out@;
    let mut i: usize = 0;
    while i < b.len()
        invariant
            i <= b.len(),
            out@ == start + b@.take(i as int),
        decreases b.len() - i,
    {
        out.push(b[i]);
        assert(b@.take(i as int).push(b@[i as int]) =~= b@.take(i + 1));
        i += 1;
    }
    assert(b@.take(b.len() as int) =~= b@);
}

// ---------------------------------------------------------------- trimming

/// `s` without its leading white space.
pub open spec fn trim_start(s: Seq<char>) -> Seq<char>
    decreases s.len(),
{
    if s.len() > 0 && is_ws(s[0]) {
        trim_start(s.drop_first())
    } else {
        s
    }
}

/// `s` without its trailing white space.
pub open spec fn trim_end(s: Seq<char>) -> Seq<char>
    decreases s.len(),
{
    if s.len() > 0 && is_ws(s.last()) {
        trim_end(s.drop_last())
    } else {
        s
    }
}

/// `s` without leading and trailing white space, as `str::trim` gives it.
pub open spec fn trim(s: Seq<char>) -> Seq<char> {
    trim_end(trim_start(s))
}

/// Every character of `s` is white space (`str::trim` leaves nothing).
pub open spec fn is_blank(s: Seq<char>) -> bool {
    forall|j: int| 0 <= j < s.len() ==> is_ws(#[trigger] s[j])
}

/// A blank sequence trims to nothing, and only a blank one does.
pub proof fn lemma_trim_empty_iff_blank(s: Seq<char>)
    ensures
        (trim(s).len() == 0) == is_blank(s),
    decreases s.len(),
{
    if s.len() > 0 && is_ws(s[0]) {
        lemma_trim_empty_iff_blank(s.drop_first());
        assert(trim(s) == trim(s.drop_first()));
        if is_blank(s.drop_first()) {
            assert forall|j: int| 0 <= j < s.len() implies is_ws(#[trigger] s[j]) by {
                if j > 0 {
                    assert(s[j] == s.drop_first()[j - 1]);
                }
            }
        }
        if is_blank(s) {
            assert forall|j: int| 0 <= j < s.drop_first().len() implies is_ws(
                #[trigger] s.drop_first()[j],
            ) by {
                assert(s.drop_first()[j] == s[j + 1]);
            }
        }
    } else if s.len() > 0 {
        assert(trim_start(s) == s);
        lemma_trim_end_keeps_nonblank(s);
    }
}

/// Trimming the end of a sequence that starts with a non-blank character
/// leaves at least that character.
proof fn lemma_trim_end_keeps_nonblank(s: Seq<char>)
    requires
        s.len() > 0,
        !is_ws(s[0]),
    ensures
        trim_end(s).len() > 0,
    decreases s.len(),
{
    if s.len() > 1 && is_ws(s.last()) {
        lemma_trim_end_keeps_nonblank(s.drop_last());
    }
}

/// Executable white-space test of a whole sequence.
pub fn chars_blank(s: &Vec<char>) -> (r: bool)
    ensures
        r == is_blank(s@),
{
    let mut i: usize = 0;
    while i < s.len()
        invariant
            i <= s.len(),
            forall|j: int| 0 <= j < i ==> is_ws(#[trigger] s@[j]),
        decreases s.len() - i,
    {
        if !is_white_space(s[i]) {
            return false;
        }
        i += 1;
    }
    true
}

/// `s` trimmed of white space at both ends.
pub fn chars_trim(s: &Vec<char>) -> (r: Vec<char>)
    ensures
        r@ == trim(s@),
{
    let mut lo: usize = 0;
    assert(s@.skip(0) =~= s@);
    while lo < s.len() && is_white_space(s[lo])
        invariant
            lo <= s.len(),
            trim_start(s@) == trim_start(s@.skip(lo as int)),
        decreases s.len() - lo,
    {
        assert(s@.skip(lo as int).drop_first() =~= s@.skip(lo + 1));
        lo += 1;
    }
    assert(trim_start(s@) == s@.skip(lo as int));
    let mut hi: usize = s.len();
    while hi > lo && is_white_space(s[hi - 1])
        invariant
            lo <= hi <= s.len(),
            trim_end(s@.skip(lo as int)) == trim_end(s@.subrange(lo as int, hi as int)),
        decreases hi,
    {
        assert(s@.subrange(lo as int, hi as int).drop_last() =~= s@.subrange(
            lo as int,
            hi - 1,
        ));
        hi -= 1;
    }
    assert(s@.skip(lo as int) =~= s@.subrange(lo as int, s.len() as int));
    let mut r: Vec<char> = Vec::new();
    let mut k: usize = lo;
    while k < hi
        invariant
            lo <= k <= hi,
            hi <= s.len(),
            r@ == s@.subrange(lo as int, k as int),
        decreases hi - k,
    {
        r.push(s[k]);
        assert(s@.subrange(lo as int, k as int).push(s@[k as int]) =~= s@.subrange(
            lo as int,
            k + 1,
        ));
        k += 1;
    }
    r
}

} // verus!

verus! {

// ---------------------------------------------------------------- splitting

/// The tokens of `s[i..]` when the token being read so far is `cur`:
/// maximal runs of non-white-space characters, as `str::split_whitespace`
/// yields them.
pub open spec fn words_from(s: Seq<char>, i: int, cur: Seq<char>) -> Seq<Seq<char>>
    decreases s.len() - i,
{
    if i >= s.len() {
        if cur.len() > 0 {
            seq![cur]
        } else {
            seq![]
        }
    } else if is_ws(s[i]) {
        (if cur.len() > 0 {
            seq![cur]
        } else {
            seq![]
        }) + words_from(s, i + 1, seq![])
    } else {
        words_from(s, i + 1, cur.push(s[i]))
    }
}

/// The white-space separated words of `s` (`str::split_whitespace`).
pub open spec fn words(s: Seq<char>) -> Seq<Seq<char>> {
    words_from(s, 0, seq![])
}

/// The pieces of `s[i..]` between occurrences of `sep`, the current piece
/// being `cur`; there is always one more piece than separators
/// (`str::split` with a character pattern).
pub open spec fn pieces_from(s: Seq<char>, sep: char, i: int, cur: Seq<char>) -> Seq<Seq<char>>
    decreases s.len() - i,
{
    if i >= s.len() {
        seq![cur]
    } else if s[i] == sep {
        seq![cur] + pieces_from(s, sep, i + 1, seq![])
    } else {
        pieces_from(s, sep, i + 1, cur.push(s[i]))
    }
}

/// `s` split at every `sep` (`str::split(sep)`).
pub open spec fn pieces(s: Seq<char>, sep: char) -> Seq<Seq<char>> {
    pieces_from(s, sep, 0, seq![])
}

/// The parts joined with `sep` between neighbours (`[..].join(sep)`).
pub open spec fn join(parts: Seq<Seq<char>>, sep: Seq<char>) -> Seq<char>
    decreases parts.len(),
{
    if parts.len() == 0 {
        seq![]
    } else if parts.len() == 1 {
        parts[0]
    } else {
        join(parts.drop_last(), sep) + sep + parts.last()
    }
}

/// The white-space separated words of `s`.
pub fn split_words(s: &Vec<char>) -> (r: Vec<Vec<char>>)
    ensures
        r@.len() == words(s@).len(),
        forall|k: int| 0 <= k < r@.len() ==> (#[trigger] r@[k])@ == words(s@)[k],
{
    let mut out: Vec<Vec<char>> = Vec::new();
    let mut cur: Vec<char> = Vec::new();
    let ghost got: Seq<Seq<char>> = seq![];
    let mut i: usize = 0;
    while i < s.len()
        invariant
            i <= s.len(),
            out@.len() == got.len(),
            forall|k: int| 0 <= k < out@.len() ==> (#[trigger] out@[k])@ == got[k],
            got + words_from(s@, i as int, cur@) == words(s@),
        decreases s.len() - i,
    {
        let c = s[i];
        if is_white_space(c) {
            let ghost g0 = got;
            let ghost c0 = cur@;
            let ghost rest = words_from(s@, i + 1, seq![]);
            assert(words_from(s@, i as int, c0) == (if c0.len() > 0 {
                seq![c0]
            } else {
                seq![]
            }) + rest);
            if cur.len() > 0 {
                proof {
                    got = got.push(cur@);
                }
                out.push(cur);
                cur = Vec::new();
                assert(g0 + (seq![c0] + rest) =~= got + rest);
            } else {
                assert(g0 + (Seq::<Seq<char>>::empty() + rest) =~= got + rest);
            }
            assert(cur@ =~= seq![]);
        } else {
            cur.push(c);
        }
        i += 1;
    }
    if cur.len() > 0 {
        proof {
            got = got.push(cur@);
        }
        out.push(cur);
    }
    assert(got =~= words(s@));
    out
}

/// `s` split at every `sep`.
pub fn split_char(s: &Vec<char>, sep: char) -> (r: Vec<Vec<char>>)
    ensures
        r@.len() == pieces(s@, sep).len(),
        forall|k: int| 0 <= k < r@.len() ==> (#[trigger] r@[k])@ == pieces(s@, sep)[k],
{
    let mut out: Vec<Vec<char>> = Vec::new();
    let mut cur: Vec<char> = Vec::new();
    let ghost got: Seq<Seq<char>> = seq![];
    let mut i: usize = 0;
    while i < s.len()
        invariant
            i <= s.len(),
            out@.len() == got.len(),
            forall|k: int| 0 <= k < out@.len() ==> (#[trigger] out@[k])@ == got[k],
            got + pieces_from(s@, sep, i as int, cur@) == pieces(s@, sep),
        decreases s.len() - i,
    {
        let c = s[i];
        if c == sep {
            proof {
                got = got.push(cur@);
            }
            out.push(cur);
            cur = Vec::new();
            assert(got + pieces_from(s@, sep, i + 1, cur@) =~= pieces(s@, sep));
        } else {
            cur.push(c);
        }
        i += 1;
    }
    proof {
        got = got.push(cur@);
    }
    out.push(cur);
    assert(got =~= pieces(s@, sep));
    out
}

/// The views of a vector of character vectors.
pub open spec fn views(v: Seq<Vec<char>>) -> Seq<Seq<char>> {
    v.map_values(|x: Vec<char>| x@)
}

/// `parts` joined with `sep`.
pub fn join_chars(parts: &Vec<Vec<char>>, sep: &Vec<char>) -> (r: Vec<char>)
    ensures
        r@ == join(views(parts@), sep@),
{
    let r = join_range(parts, 0, parts.len(), sep);
    assert(views(parts@).subrange(0, parts@.len() as int) =~= views(parts@));
    r
}

/// `parts[lo..hi]` joined with `sep`.
pub fn join_range(parts: &Vec<Vec<char>>, lo: usize, hi: usize, sep: &Vec<char>) -> (r: Vec<char>)
    requires
        lo <= hi <= parts.len(),
    ensures
        r@ == join(views(parts@).subrange(lo as int, hi as int), sep@),
{
    let mut r: Vec<char> = Vec::new();
    let ghost ps = views(parts@).subrange(lo as int, hi as int);
    let mut i: usize = lo;
    while i < hi
        invariant
            lo <= i <= hi,
            hi <= parts.len(),
            ps == views(parts@).subrange(lo as int, hi as int),
            r@ == join(ps.take(i - lo), sep@),
        decreases hi - i,
    {
        let ghost k = i - lo;
        assert(ps.take(k + 1).drop_last() =~= ps.take(k));
        if i > lo {
            push_all(&mut r, sep);
        }
        push_all(&mut r, &parts[i]);
        assert(ps.take(k + 1).last() == parts@[i as int]@);
        if i == lo {
            assert(ps.take(1)[0] == parts@[lo as int]@);
        }
        i += 1;
    }
    assert(ps.take(hi - lo) =~= ps);
    r
}

// ---------------------------------------------------------------- numbers

/// The ASCII digit for `d < 10`.
pub open spec fn digit_char(d: nat) -> char {
    (d + 48) as char
}

/// The decimal numeral of `n`, without leading zeros (`Display` for an
/// unsigned integer).
pub open spec fn decimal(n: nat) -> Seq<char>
    decreases n,
{
    if n < 10 {
        seq![digit_char(n)]
    } else {
        decimal(n / 10).push(digit_char(n % 10))
    }
}

/// `s` padded on the left with `'0'` to at least `width` characters (the
/// `{:0width}` format of a non-negative number).
pub open spec fn zero_pad(s: Seq<char>, width: nat) -> Seq<char> {
    if s.len() < width {
        Seq::new((width - s.len()) as nat, |_i: int| '0') + s
    } else {
        s
    }
}

/// Appends the decimal numeral of `n`.
pub fn push_decimal(out: &mut Vec<char>, n: u64)
    ensures
        final(out)@ == old(out)@ + decimal(n as nat),
    decreases n,
{
    if n >= 10 {
        push_decimal(out, n / 10);
    }
    let d = (n % 10) as u32;
    let c = char_from_digit(d);
    out.push(c);
    assert(decimal(n as nat) == if n < 10 {
        seq![digit_char(n as nat)]
    } else {
        decimal((n / 10) as nat).push(digit_char((n % 10) as nat))
    });
}

/// The ASCII digit for `d`.
pub fn char_from_digit(d: u32) -> (c: char)
    requires
        d < 10,
    ensures
        c == digit_char(d as nat),
{
    if d == 0 {
        '0'
    } else if d == 1 {
        '1'
    } else if d == 2 {
        '2'
    } else if d == 3 {
        '3'
    } else if d == 4 {
        '4'
    } else if d == 5 {
        '5'
    } else if d == 6 {
        '6'
    } else if d == 7 {
        '7'
    } else if d == 8 {
        '8'
    } else {
        '9'
    }
}

/// Appends `n` zero-padded to `width` characters.
pub fn push_padded(out: &mut Vec<char>, n: u64, width: usize)
    ensures
        final(out)@ == old(out)@ + zero_pad(decimal(n as nat), width as nat),
{
    let mut digits: Vec<char> = Vec::new();
    push_decimal(&mut digits, n);
    assert(digits@ =~= decimal(n as nat));
    let ghost start = out@;
    if digits.len() < width {
        let mut k: usize = digits.len();
        while k < width
            invariant
                digits.len() <= k <= width,
                out@ == start + Seq::new((k - digits.len()) as nat, |_i: int| '0'),
            decreases width - k,
        {
            out.push('0');
            assert(Seq::new((k - digits.len()) as nat, |_i: int| '0').push('0') =~= Seq::new(
                (k + 1 - digits.len()) as nat,
                |_i: int| '0',
            ));
            k += 1;
        }
    }
    push_all(out, &digits);
    assert(out@ =~= start + zero_pad(decimal(n as nat), width as nat));
}

} // verus!

verus! {

// ---------------------------------------------------------------- ordering

/// The code points of `s`.
pub open spec fn codes(s: Seq<char>) -> Seq<int> {
    s.map_values(|c: char| c as int)
}

/// Whether `a` comes before or equals `b` in code-point order (the order of
/// `str`, since UTF-8 keeps code-point order).
pub fn chars_lex_le(a: &Vec<char>, b: &Vec<char>) -> (r: bool)
    ensures
        r == crate::sort::lex_le(codes(a@), codes(b@)),
{
    let mut i: usize = 0;
    assert(codes(a@).skip(0) =~= codes(a@));
    assert(codes(b@).skip(0) =~= codes(b@));
    while i < a.len() && i < b.len() && a[i] == b[i]
        invariant
            i <= a@.len(),
            i <= b@.len(),
            crate::sort::lex_le(codes(a@), codes(b@)) == crate::sort::lex_le(
                codes(a@).skip(i as int),
                codes(b@).skip(i as int),
            ),
        decreases a@.len() - i,
    {
        assert(codes(a@).skip(i as int).drop_first() =~= codes(a@).skip(i + 1));
        assert(codes(b@).skip(i as int).drop_first() =~= codes(b@).skip(i + 1));
        i += 1;
    }
    let ghost sa = codes(a@).skip(i as int);
    let ghost sb = codes(b@).skip(i as int);
    if i == a.len() {
        assert(sa.len() == 0);
        true
    } else if i == b.len() {
        assert(sa.len() > 0 && sb.len() == 0);
        false
    } else {
        assert(sa[0] == a@[i as int] as int && sb[0] == b@[i as int] as int);
        a[i] < b[i]
    }
}


/// What `str::to_lowercase` returns (Unicode case mapping).
pub uninterp spec fn unicode_lower(s: Seq<char>) -> Seq<char>;

/// The ASCII lower-case form of `c`.
pub open spec fn ascii_lower(c: char) -> char {
    if 'A' <= c && c <= 'Z' {
        ((c as u32) + 32) as char
    } else {
        c
    }
}

/// `str::to_lowercase`: the Unicode lower-case form of `s`.  The result is
/// named; on ASCII text it maps `A`..`Z` to `a`..`z` and keeps every other
/// character.
#[verifier::external_body]
pub(crate) fn to_lowercase(s: &str) -> (r: String)
    ensures
        r@ == unicode_lower(s@),
        vstd::utf8::is_ascii_chars(s@) ==> r@ == s@.map_values(|c: char| ascii_lower(c)),
{
    s.to_lowercase()
}

/// `lit` occurs in `s` at `p`.
pub open spec fn occurs_at(s: Seq<char>, p: int, lit: Seq<char>) -> bool {
    0 <= p && p + lit.len() <= s.len() && s.subrange(p, p + lit.len()) == lit
}

/// Whether `lit` occurs in `s` at `p`.
pub fn occurs_at_exec(s: &Vec<char>, p: usize, lit: &Vec<char>) -> (r: bool)
    ensures
        r == occurs_at(s@, p as int, lit@),
{
    if p > s.len() || lit.len() > s.len() - p {
        return false;
    }
    let mut k: usize = 0;
    while k < lit.len()
        invariant
            k <= lit@.len(),
            p + lit.len() <= s.len(),
            forall|j: int| 0 <= j < k ==> s@[p + j] == lit@[j],
        decreases lit@.len() - k,
    {
        if s[p + k] != lit[k] {
            assert(s@.subrange(p as int, p + lit@.len())[k as int] != lit@[k as int]);
            return false;
        }
        k += 1;
    }
    assert(s@.subrange(p as int, p + lit@.len()) =~= lit@);
    true
}


/// `needle` occurs somewhere in `hay`.
pub open spec fn contains_seq(hay: Seq<char>, needle: Seq<char>) -> bool {
    exists|p: int| occurs_at(hay, p, needle)
}

/// Whether `needle` occurs somewhere in `hay`.
pub fn contains_chars(hay: &Vec<char>, needle: &Vec<char>) -> (r: bool)
    ensures
        r == contains_seq(hay@, needle@),
{
    if needle.len() > hay.len() {
        assert forall|p: int| !occurs_at(hay@, p, needle@) by {}
        return false;
    }
    let last = hay.len() - needle.len();
    let mut p: usize = 0;
    loop
        invariant
            last == hay@.len() - needle@.len(),
            p <= last,
            forall|q: int| 0 <= q < p ==> !occurs_at(hay@, q, needle@),
        ensures
            forall|q: int| 0 <= q <= last ==> !occurs_at(hay@, q, needle@),
        decreases last - p,
    {
        if occurs_at_exec(hay, p, needle) {
            return true;
        }
        if p == last {
            break;
        }
        p += 1;
    }
    assert forall|q: int| !occurs_at(hay@, q, needle@) by {
        if 0 <= q <= last {
        }
    }
    false
}

/// The ASCII lower-case forms of `a` and `b` are the same.
pub open spec fn eq_ignore_ascii_case(a: Seq<char>, b: Seq<char>) -> bool {
    a.len() == b.len() && forall|i: int| 0 <= i < a.len() ==> ascii_lower(#[trigger] a[i]) == ascii_lower(b[i])
}

/// Whether `a` and `b` are equal up to ASCII case.
pub fn chars_eq_ignore_ascii_case(a: &Vec<char>, b: &Vec<char>) -> (r: bool)
    ensures
        r == eq_ignore_ascii_case(a@, b@),
{
    if a.len() != b.len() {
        return false;
    }
    let mut i: usize = 0;
    while i < a.len()
        invariant
            a@.len() == b@.len(),
            i <= a@.len(),
            forall|j: int| 0 <= j < i ==> ascii_lower(#[trigger] a@[j]) == ascii_lower(b@[j]),
        decreases a@.len() - i,
    {
        let x = a[i];
        let y = b[i];
        let lx: u32 = if 'A' <= x && x <= 'Z' { (x as u32) + 32 } else { x as u32 };
        let ly: u32 = if 'A' <= y && y <= 'Z' { (y as u32) + 32 } else { y as u32 };
        assert(lx == ascii_lower(x) as u32 && ly == ascii_lower(y) as u32);
        if lx != ly {
            return false;
        }
        i += 1;
    }
    true
}

/// Code points determine the text.
pub proof fn lemma_codes_injective(p: Seq<char>, q: Seq<char>)
    requires
        codes(p) == codes(q),
    ensures
        p == q,
{
    assert(p.len() == codes(p).len());
    assert(q.len() == codes(q).len());
    assert forall|i: int| 0 <= i < p.len() implies p[i] == q[i] by {
        assert(codes(p)[i] == codes(q)[i]);
        assert(codes(p)[i] == p[i] as int);
        assert(codes(q)[i] == q[i] as int);
    }
    assert(p =~= q);
}


/// Every character of `s` is an ASCII digit.
pub open spec fn all_digits(s: Seq<char>) -> bool {
    forall|i: int| 0 <= i < s.len() ==> '0' <= #[trigger] s[i] <= '9'
}

/// The number written by the decimal digits `s`.
pub open spec fn digits_value(s: Seq<char>) -> int
    decreases s.len(),
{
    if s.len() == 0 {
        0
    } else {
        digits_value(s.drop_last()) * 10 + (s.last() as int - '0' as int)
    }
}

/// The digits of an optionally signed number: `s` without a leading `+`
/// (or `-` when `minus` is allowed).
pub open spec fn unsigned_part(s: Seq<char>, minus: bool) -> Seq<char> {
    if s.len() > 0 && (s[0] == '+' || (minus && s[0] == '-')) {
        s.drop_first()
    } else {
        s
    }
}

/// What `str::parse::<u64>` gives: an optional `+`, then one or more ASCII
/// digits whose value fits in 64 bits.
pub open spec fn parsed_u64(s: Seq<char>) -> Option<u64> {
    let d = unsigned_part(s, false);
    if d.len() > 0 && all_digits(d) && digits_value(d) <= u64::MAX {
        Some(digits_value(d) as u64)
    } else {
        None
    }
}

/// What `str::parse::<i64>` gives: an optional `+` or `-`, then one or more
/// ASCII digits, the signed value within the range of `i64`.
pub open spec fn parsed_i64(s: Seq<char>) -> Option<i64> {
    let d = unsigned_part(s, true);
    let neg = s.len() > 0 && s[0] == '-';
    let v = if neg { -digits_value(d) } else { digits_value(d) };
    if d.len() > 0 && all_digits(d) && i64::MIN <= v <= i64::MAX {
        Some(v as i64)
    } else {
        None
    }
}

proof fn lemma_digits_value_nonneg(s: Seq<char>)
    requires
        all_digits(s),
    ensures
        digits_value(s) >= 0,
    decreases s.len(),
{
    if s.len() > 0 {
        lemma_digits_value_nonneg(s.drop_last());
    }
}

proof fn lemma_digits_value_mono(s: Seq<char>, i: int)
    requires
        all_digits(s),
        0 <= i <= s.len(),
    ensures
        digits_value(s.take(i)) <= digits_value(s),
    decreases s.len(),
{
    if i < s.len() {
        assert(s.take(i) =~= s.drop_last().take(i));
        lemma_digits_value_mono(s.drop_last(), i);
        lemma_digits_value_nonneg(s.drop_last());
        assert(digits_value(s.drop_last()) <= digits_value(s.drop_last()) * 10) by (nonlinear_arith)
            requires digits_value(s.drop_last()) >= 0;
    } else {
        assert(s.take(i) =~= s);
    }
}

/// The value of the digits `d[0..]`, or `None` when one is not a digit or
/// the value passes `limit`.
fn digits_upto(d: &Vec<char>, limit: u64) -> (r: Option<u64>)
    ensures
        match r {
            Some(v) => all_digits(d@) && digits_value(d@) == v && v <= limit,
            None => !(all_digits(d@) && digits_value(d@) <= limit),
        },
{
    let mut v: u64 = 0;
    let mut i: usize = 0;
    while i < d.len()
        invariant
            i <= d@.len(),
            all_digits(d@.take(i as int)),
            digits_value(d@.take(i as int)) == v,
            v <= limit,
        decreases d@.len() - i,
    {
        let c = d[i];
        assert(d@.take(i + 1).drop_last() =~= d@.take(i as int));
        if c < '0' || c > '9' {
            assert(!all_digits(d@));
            return None;
        }
        let dig: u64 = (c as u32 - '0' as u32) as u64;
        let m = v.checked_mul(10);
        match m {
            Some(m) => {
                match m.checked_add(dig) {
                    Some(n) => {
                        if n > limit {
                            proof {
                                if all_digits(d@) {
                                    lemma_digits_value_mono(d@, i + 1);
                                }
                            }
                            return None;
                        }
                        v = n;
                    },
                    None => {
                        proof {
                            if all_digits(d@) {
                                lemma_digits_value_mono(d@, i + 1);
                            }
                        }
                        return None;
                    },
                }
            },
            None => {
                proof {
                    if all_digits(d@) {
                        lemma_digits_value_mono(d@, i + 1);
                        lemma_digits_value_nonneg(d@.take(i + 1));
                    }
                }
                return None;
            },
        }
        i += 1;
    }
    assert(d@.take(i as int) =~= d@);
    Some(v)
}

/// `str::parse::<u64>`.
pub fn parse_u64(s: &str) -> (r: Option<u64>)
    ensures
        r == parsed_u64(s@),
{
    let c = chars_of(s);
    let mut d: Vec<char> = Vec::new();
    let mut i: usize = if c.len() > 0 && c[0] == '+' { 1 } else { 0 };
    let start = i;
    while i < c.len()
        invariant
            start <= i <= c@.len(),
            d@ == c@.subrange(start as int, i as int),
        decreases c@.len() - i,
    {
        d.push(c[i]);
        assert(c@.subrange(start as int, i + 1) =~= c@.subrange(start as int, i as int).push(c@[i as int]));
        i += 1;
    }
    assert(d@ =~= unsigned_part(s@, false));
    if d.len() == 0 {
        return None;
    }
    digits_upto(&d, u64::MAX)
}

/// `str::parse::<i64>`.
pub fn parse_i64(s: &str) -> (r: Option<i64>)
    ensures
        r == parsed_i64(s@),
{
    let c = chars_of(s);
    let neg = c.len() > 0 && c[0] == '-';
    let mut d: Vec<char> = Vec::new();
    let mut i: usize = if c.len() > 0 && (c[0] == '+' || c[0] == '-') { 1 } else { 0 };
    let start = i;
    while i < c.len()
        invariant
            start <= i <= c@.len(),
            d@ == c@.subrange(start as int, i as int),
        decreases c@.len() - i,
    {
        d.push(c[i]);
        assert(c@.subrange(start as int, i + 1) =~= c@.subrange(start as int, i as int).push(c@[i as int]));
        i += 1;
    }
    assert(d@ =~= unsigned_part(s@, true));
    if d.len() == 0 {
        return None;
    }
    let limit: u64 = if neg { 9223372036854775808 } else { 9223372036854775807 };
    match digits_upto(&d, limit) {
        Some(v) => {
            proof {
                lemma_digits_value_nonneg(d@);
            }
            if neg {
                if v == 9223372036854775808 {
                    Some(i64::MIN)
                } else {
                    Some(0 - (v as i64))
                }
            } else {
                Some(v as i64)
            }
        },
        None => {
            proof {
                if all_digits(d@) {
                    lemma_digits_value_nonneg(d@);
                }
            }
            None
        },
    }
}

/// The decimal numeral of `n`, with `-` when negative (`Display` for a
/// signed integer).
pub open spec fn signed_decimal(n: int) -> Seq<char> {
    if n < 0 {
        seq!['-'] + decimal((-n) as nat)
    } else {
        decimal(n as nat)
    }
}

/// Appends the decimal numeral of `id`, with `-` when negative.
pub fn push_signed(out: &mut Vec<char>, id: i64)
    ensures
        final(out)@ == old(out)@ + signed_decimal(id as int),
{
    if id < 0 {
        out.push('-');
        let m: u64 = if id == i64::MIN {
            9223372036854775808
        } else {
            (0 - id) as u64
        };
        assert(m == -(id as int));
        let ghost mid = out@;
        push_decimal(out, m);
        assert(out@ =~= old(out)@ + signed_decimal(id as int));
    } else {
        push_decimal(out, id as u64);
    }
}


/// `s` ends with `suffix`.
pub open spec fn ends_with(s: Seq<char>, suffix: Seq<char>) -> bool {
    s.len() >= suffix.len() && s.subrange(s.len() - suffix.len(), s.len() as int) == suffix
}

/// Whether `s` ends with `suffix`.
pub fn ends_with_exec(s: &Vec<char>, suffix: &Vec<char>) -> (r: bool)
    ensures
        r == ends_with(s@, suffix@),
{
    if s.len() < suffix.len() {
        return false;
    }
    let off = s.len() - suffix.len();
    let mut k: usize = 0;
    while k < suffix.len()
        invariant
            k <= suffix@.len(),
            off + suffix.len() == s.len(),
            forall|j: int| 0 <= j < k ==> s@[off + j] == suffix@[j],
        decreases suffix@.len() - k,
    {
        if s[off + k] != suffix[k] {
            assert(s@.subrange(off as int, s@.len() as int)[k as int] != suffix@[k as int]);
            return false;
        }
        k += 1;
    }
    assert(s@.subrange(off as int, s@.len() as int) =~= suffix@);
    true
}

/// What `str::parse::<u32>` gives: an optional `+`, then one or more ASCII
/// digits whose value fits in 32 bits.
pub open spec fn parsed_u32(s: Seq<char>) -> Option<u32> {
    let d = unsigned_part(s, false);
    if d.len() > 0 && all_digits(d) && digits_value(d) <= u32::MAX {
        Some(digits_value(d) as u32)
    } else {
        None
    }
}

/// `str::parse::<u32>`.
pub fn parse_u32(s: &str) -> (r: Option<u32>)
    ensures
        r == parsed_u32(s@),
{
    let c = chars_of(s);
    let mut d: Vec<char> = Vec::new();
    let mut i: usize = if c.len() > 0 && c[0] == '+' { 1 } else { 0 };
    let start = i;
    while i < c.len()
        invariant
            start <= i <= c@.len(),
            d@ == c@.subrange(start as int, i as int),
        decreases c@.len() - i,
    {
        d.push(c[i]);
        assert(c@.subrange(start as int, i + 1) =~= c@.subrange(start as int, i as int).push(c@[i as int]));
        i += 1;
    }
    assert(d@ =~= unsigned_part(s@, false));
    if d.len() == 0 {
        return None;
    }
    match digits_upto(&d, 4294967295) {
        Some(v) => Some(v as u32),
        None => None,
    }
}

proof fn lemma_pieces_from_nonempty(s: Seq<char>, sep: char, i: int, cur: Seq<char>)
    ensures
        pieces_from(s, sep, i, cur).len() >= 1,
    decreases s.len() - i,
{
    if i < s.len() {
        if s[i] == sep {
            lemma_pieces_from_nonempty(s, sep, i + 1, seq![]);
        } else {
            lemma_pieces_from_nonempty(s, sep, i + 1, cur.push(s[i]));
        }
    }
}

/// `str::split` always gives at least one piece.
pub proof fn lemma_pieces_nonempty(s: Seq<char>, sep: char)
    ensures
        pieces(s, sep).len() >= 1,
{
    lemma_pieces_from_nonempty(s, sep, 0, seq![]);
}
} // verus!
