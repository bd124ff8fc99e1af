//! The cache key of a generated overlay file: a digest of the subtitle
//! tracks that went into it, independent of their order.
use vstd::prelude::*;
use vstd::utf8::encode_utf8;

use crate::s3::{hex_digit, hex_encode, hex_lower, sha256_of};
use crate::sort::{is_stable_sort, key_of, lemma_stable_sort_views, stable_sort, view_seq, SortKey};
use crate::text::{chars_lex_le, chars_of, codes, lemma_codes_injective, push_str, string_of};

verus! {

/// What identifies one subtitle track of an overlay: its file, its vertical
/// position (the bits of the `f64`), its colour and its font size.
#[derive(Debug, Clone)]
pub struct OverlayKeyEntry {
    pub path: String,
    pub y_bits: u64,
    pub color: String,
    pub font_size: u32,
}

/// The values of an entry.
pub struct OverlayKeyView {
    pub path: Seq<char>,
    pub y_bits: u64,
    pub color: Seq<char>,
    pub font_size: u32,
}

impl View for OverlayKeyEntry {
    type V = OverlayKeyView;

    open spec fn view(&self) -> OverlayKeyView {
        OverlayKeyView {
            path: self.path@,
            y_bits: self.y_bits,
            color: self.color@,
            font_size: self.font_size,
        }
    }
}

impl SortKey for OverlayKeyEntry {
    open spec fn sort_key(&self) -> Seq<int> {
        codes(self.path@)
    }

    fn key_le(&self, other: &Self) -> (r: bool) {
        let a = chars_of(self.path.as_str());
        let b = chars_of(other.path.as_str());
        chars_lex_le(&a, &b)
    }
}

/// Entries are ordered by path.
pub open spec fn path_key() -> spec_fn(OverlayKeyView) -> Seq<int> {
    |v: OverlayKeyView| codes(v.path)
}

/// The `n` low bytes of `x`, least significant first (`to_le_bytes`).
pub open spec fn le_bytes(x: nat, n: nat) -> Seq<u8>
    decreases n,
{
    if n == 0 {
        seq![]
    } else {
        seq![(x % 256) as u8] + le_bytes(x / 256, (n - 1) as nat)
    }
}

/// The bytes hashed for one entry.
pub open spec fn entry_bytes(v: OverlayKeyView) -> Seq<u8> {
    encode_utf8(v.path) + le_bytes(v.y_bits as nat, 8) + encode_utf8(v.color) + le_bytes(
        v.font_size as nat,
        4,
    )
}

/// The bytes hashed for entries in the given order.
pub open spec fn entries_bytes(vs: Seq<OverlayKeyView>) -> Seq<u8>
    decreases vs.len(),
{
    if vs.len() == 0 {
        seq![]
    } else {
        entries_bytes(vs.drop_last()) + entry_bytes(vs.last())
    }
}

/// The file name for entries already sorted by path: the first eight bytes
/// of the digest in hexadecimal, between `.blowup_overlay_` and `.ass`.
pub open spec fn key_text(sorted: Seq<OverlayKeyView>) -> Seq<char> {
    ".blowup_overlay_"@ + hex_lower(sha256_of(entries_bytes(sorted)).take(8)) + ".ass"@
}

/// `k` is the cache key of `entries`.
pub open spec fn is_overlay_key(entries: Seq<OverlayKeyView>, k: Seq<char>) -> bool {
    exists|s: Seq<OverlayKeyView>| is_stable_sort(entries, s, path_key()) && k == key_text(s)
}

fn push_le_bytes(out: &mut Vec<u8>, x: u64, n: usize)
    requires
        n <= 8,
    ensures
        final(out)@ == old(out)@ + le_bytes(x as nat, n as nat),
{
    let ghost start = out@;
    let mut v = x;
    let mut k: usize = 0;
    while k < n
        invariant
            k <= n,
            out@ + le_bytes(v as nat, (n - k) as nat) == start + le_bytes(x as nat, n as nat),
        decreases n - k,
    {
        let ghost before = out@;
        let ghost v0 = v;
        assert(le_bytes(v as nat, (n - k) as nat) == seq![(v % 256) as u8] + le_bytes(
            (v / 256) as nat,
            (n - k - 1) as nat,
        ));
        out.push((v % 256) as u8);
        v = v / 256;
        assert(out@ + le_bytes(v as nat, (n - (k + 1)) as nat) =~= before + le_bytes(
            v0 as nat,
            (n - k) as nat,
        ));
        k += 1;
    }
    assert(le_bytes(v as nat, 0) =~= Seq::<u8>::empty());
}

/// A lower-case hexadecimal digit.
pub open spec fn is_lower_hex(c: char) -> bool {
    ('0' <= c && c <= '9') || ('a' <= c && c <= 'f')
}

/// Hexadecimal text has two lower-case digits per byte.
proof fn lemma_hex_lower_shape(b: Seq<u8>)
    ensures
        hex_lower(b).len() == 2 * b.len(),
        forall|i: int| 0 <= i < hex_lower(b).len() ==> is_lower_hex(#[trigger] hex_lower(b)[i]),
    decreases b.len(),
{
    if b.len() > 0 {
        lemma_hex_lower_shape(b.drop_last());
        let hi = b.last() as int / 16;
        let lo = b.last() as int % 16;
        assert(0 <= hi < 16 && 0 <= lo < 16);
        let tail = seq![hex_digit(hi), hex_digit(lo)];
        assert(is_lower_hex(tail[0]) && is_lower_hex(tail[1]));
        assert forall|i: int| 0 <= i < hex_lower(b).len() implies is_lower_hex(#[trigger] hex_lower(b)[i]) by {
            if i < hex_lower(b.drop_last()).len() {
                assert(hex_lower(b)[i] == hex_lower(b.drop_last())[i]);
            } else {
                assert(hex_lower(b)[i] == tail[i - hex_lower(b.drop_last()).len()]);
            }
        }
    }
}

/// The cache file name for a set of overlay tracks; the order in which the
/// tracks are given does not matter, as they are sorted by path first.  It
/// is 36 characters: `.blowup_overlay_`, 16 lower-case hexadecimal digits
/// and `.ass`.
pub fn overlay_cache_key(configs: &Vec<OverlayKeyEntry>) -> (r: String)
    ensures
        is_overlay_key(view_seq(configs@), r@),
        r@.len() == 36,
        r@.subrange(0, 16) == ".blowup_overlay_"@,
        r@.subrange(32, 36) == ".ass"@,
        forall|i: int| 16 <= i < 32 ==> is_lower_hex(#[trigger] r@[i]),
{
    let mut items: Vec<OverlayKeyEntry> = Vec::new();
    let mut i: usize = 0;
    while i < configs.len()
        invariant
            i <= configs@.len(),
            items@.len() == i,
            forall|j: int| 0 <= j < i ==> (#[trigger] items@[j])@ == configs@[j]@,
        decreases configs@.len() - i,
    {
        let c = &configs[i];
        let e = OverlayKeyEntry {
            path: c.path.clone(),
            y_bits: c.y_bits,
            color: c.color.clone(),
            font_size: c.font_size,
        };
        items.push(e);
        i += 1;
    }
    assert(view_seq(items@) =~= view_seq(configs@));
    let sorted = stable_sort(items);
    let ghost sv = view_seq(sorted@);
    proof {
        assert forall|t: OverlayKeyEntry| #[trigger] key_of::<OverlayKeyEntry>()(t) == path_key()(
            t@,
        ) by {}
        lemma_stable_sort_views(items@, sorted@, key_of::<OverlayKeyEntry>(), path_key());
    }
    let mut msg: Vec<u8> = Vec::new();
    let mut k: usize = 0;
    while k < sorted.len()
        invariant
            sv == view_seq(sorted@),
            k <= sorted@.len(),
            msg@ == entries_bytes(sv.take(k as int)),
        decreases sorted@.len() - k,
    {
        let e = &sorted[k];
        assert(sv.take(k + 1).drop_last() =~= sv.take(k as int));
        assert(sv.take(k + 1).last() == e@);
        let pb = e.path.as_str().as_bytes();
        let mut j: usize = 0;
        let ghost m0 = msg@;
        while j < pb.len()
            invariant
                j <= pb@.len(),
                msg@ == m0 + pb@.take(j as int),
            decreases pb@.len() - j,
        {
            msg.push(pb[j]);
            assert(pb@.take(j + 1) =~= pb@.take(j as int).push(pb@[j as int]));
            j += 1;
        }
        assert(pb@.take(pb@.len() as int) =~= pb@);
        push_le_bytes(&mut msg, e.y_bits, 8);
        let cb = e.color.as_str().as_bytes();
        let mut j: usize = 0;
        let ghost m1 = msg@;
        while j < cb.len()
            invariant
                j <= cb@.len(),
                msg@ == m1 + cb@.take(j as int),
            decreases cb@.len() - j,
        {
            msg.push(cb[j]);
            assert(cb@.take(j + 1) =~= cb@.take(j as int).push(cb@[j as int]));
            j += 1;
        }
        assert(cb@.take(cb@.len() as int) =~= cb@);
        push_le_bytes(&mut msg, e.font_size as u64, 4);
        assert(msg@ =~= entries_bytes(sv.take(k + 1)));
        k += 1;
    }
    assert(sv.take(sorted@.len() as int) =~= sv);
    let digest = crate::s3::sha256_bytes(msg.as_slice());
    let mut head: Vec<u8> = Vec::new();
    let mut j: usize = 0;
    while j < 8
        invariant
            j <= 8,
            digest@.len() == 32,
            head@ == digest@.take(j as int),
        decreases 8 - j,
    {
        head.push(digest[j]);
        assert(digest@.take(j + 1) =~= digest@.take(j as int).push(digest@[j as int]));
        j += 1;
    }
    let hx = hex_encode(head.as_slice());
    let mut out: Vec<char> = Vec::new();
    push_str(&mut out, ".blowup_overlay_");
    push_str(&mut out, hx.as_str());
    push_str(&mut out, ".ass");
    let r = string_of(&out);
    assert(r@ =~= key_text(sv));
    proof {
        reveal_strlit(".blowup_overlay_");
        reveal_strlit(".ass");
        lemma_hex_lower_shape(head@);
        assert(r@.subrange(0, 16) =~= ".blowup_overlay_"@);
        assert(r@.subrange(32, 36) =~= ".ass"@);
        assert forall|i: int| 16 <= i < 32 implies is_lower_hex(#[trigger] r@[i]) by {
            assert(r@[i] == hex_lower(head@)[i - 16]);
        }
    }
    r
}

} // verus!

verus! {

/// No two entries name the same file.
pub open spec fn distinct_paths(vs: Seq<OverlayKeyView>) -> bool {
    forall|i: int, j: int| 0 <= i < j < vs.len() ==> (#[trigger] vs[i]).path != (#[trigger] vs[j]).path
}

/// The cache key does not depend on the order of the tracks: two track
/// lists that hold the same entries, neither naming a file twice, have the
/// same key.
pub proof fn lemma_overlay_key_order_independent(
    a: Seq<OverlayKeyView>,
    b: Seq<OverlayKeyView>,
    ka: Seq<char>,
    kb: Seq<char>,
)
    requires
        distinct_paths(a),
        distinct_paths(b),
        forall|x: OverlayKeyView| a.contains(x) <==> b.contains(x),
        is_overlay_key(a, ka),
        is_overlay_key(b, kb),
    ensures
        ka == kb,
{
    let sa = choose|s: Seq<OverlayKeyView>| is_stable_sort(a, s, path_key()) && ka == key_text(s);
    let sb = choose|s: Seq<OverlayKeyView>| is_stable_sort(b, s, path_key()) && kb == key_text(s);
    assert(crate::sort::distinct_keys(a, path_key())) by {
        assert forall|i: int, j: int| 0 <= i < j < a.len() implies path_key()(#[trigger] a[i])
            != path_key()(#[trigger] a[j]) by {
            if path_key()(a[i]) == path_key()(a[j]) {
                lemma_codes_injective(a[i].path, a[j].path);
            }
        }
    }
    assert(crate::sort::distinct_keys(b, path_key())) by {
        assert forall|i: int, j: int| 0 <= i < j < b.len() implies path_key()(#[trigger] b[i])
            != path_key()(#[trigger] b[j]) by {
            if path_key()(b[i]) == path_key()(b[j]) {
                lemma_codes_injective(b[i].path, b[j].path);
            }
        }
    }
    crate::sort::lemma_stable_sort_same_items(a, b, sa, sb, path_key());
}

} // verus!
