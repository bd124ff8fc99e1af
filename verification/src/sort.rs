use vstd::prelude::*;

verus! {

/// Lexicographic order on integer sequences (a proper prefix comes first).
pub open spec fn lex_le(a: Seq<int>, b: Seq<int>) -> bool
    decreases a.len(),
{
    if a.len() == 0 {
        true
    } else if b.len() == 0 {
        false
    } else if a[0] < b[0] {
        true
    } else if a[0] > b[0] {
        false
    } else {
        lex_le(a.drop_first(), b.drop_first())
    }
}

pub proof fn lemma_lex_refl(a: Seq<int>)
    ensures
        lex_le(a, a),
    decreases a.len(),
{
    if a.len() > 0 {
        lemma_lex_refl(a.drop_first());
    }
}

pub proof fn lemma_lex_total(a: Seq<int>, b: Seq<int>)
    ensures
        lex_le(a, b) || lex_le(b, a),
    decreases a.len(),
{
    if a.len() > 0 && b.len() > 0 && a[0] == b[0] {
        lemma_lex_total(a.drop_first(), b.drop_first());
    }
}

pub proof fn lemma_lex_trans(a: Seq<int>, b: Seq<int>, c: Seq<int>)
    requires
        lex_le(a, b),
        lex_le(b, c),
    ensures
        lex_le(a, c),
    decreases a.len(),
{
    if a.len() > 0 && b.len() > 0 && c.len() > 0 && a[0] == b[0] && b[0] == c[0] {
        lemma_lex_trans(a.drop_first(), b.drop_first(), c.drop_first());
    }
}

pub proof fn lemma_lex_antisym(a: Seq<int>, b: Seq<int>)
    requires
        lex_le(a, b),
        lex_le(b, a),
    ensures
        a == b,
    decreases a.len(),
{
    if a.len() > 0 && b.len() > 0 {
        lemma_lex_antisym(a.drop_first(), b.drop_first());
        assert(a =~= seq![a[0]] + a.drop_first());
        assert(b =~= seq![b[0]] + b.drop_first());
    } else {
        assert(a =~= b);
    }
}

/// Items ordered by a key, compared lexicographically.
pub trait SortKey: Sized {
    /// The key by which the item is ordered.
    spec fn sort_key(&self) -> Seq<int>;

    /// Whether this item's key is at most `other`'s.
    fn key_le(&self, other: &Self) -> (r: bool)
        ensures
            r == lex_le(self.sort_key(), other.sort_key()),
    ;
}

/// The key function of a [`SortKey`] type.
pub open spec fn key_of<T: SortKey>() -> spec_fn(T) -> Seq<int> {
    |t: T| t.sort_key()
}

/// The items of `s` whose key is `q`, in their order in `s`.
pub open spec fn key_class<A>(s: Seq<A>, key: spec_fn(A) -> Seq<int>, q: Seq<int>) -> Seq<A> {
    s.filter(has_key(key, q))
}

/// The test "the key is `q`".
pub open spec fn has_key<A>(key: spec_fn(A) -> Seq<int>, q: Seq<int>) -> spec_fn(A) -> bool {
    |e: A| key(e) == q
}

/// `s` is ordered by `key`.
pub open spec fn sorted_by<A>(s: Seq<A>, key: spec_fn(A) -> Seq<int>) -> bool {
    forall|i: int, j: int| 0 <= i < j < s.len() ==> lex_le(key(#[trigger] s[i]), key(#[trigger] s[j]))
}

/// `out` is `input` sorted stably by `key`: ordered by key, and for every
/// key the items with that key appear in `out` exactly as in `input` (what
/// `slice::sort_by_key` produces).
pub open spec fn is_stable_sort<A>(input: Seq<A>, out: Seq<A>, key: spec_fn(A) -> Seq<int>) -> bool {
    &&& sorted_by(out, key)
    &&& forall|q: Seq<int>| #[trigger] key_class(out, key, q) == key_class(input, key, q)
}

/// The views of a sequence of items.
pub open spec fn view_seq<T: View>(s: Seq<T>) -> Seq<T::V> {
    s.map_values(|t: T| t@)
}

/// A stable sort of items is a stable sort of their views, when the key
/// depends on the view alone.
pub proof fn lemma_stable_sort_views<T: View>(
    input: Seq<T>,
    out: Seq<T>,
    key: spec_fn(T) -> Seq<int>,
    vkey: spec_fn(T::V) -> Seq<int>,
)
    requires
        is_stable_sort(input, out, key),
        forall|t: T| #[trigger] key(t) == vkey(t@),
    ensures
        is_stable_sort(view_seq(input), view_seq(out), vkey),
{
    let vo = view_seq(out);
    let vi = view_seq(input);
    assert forall|i: int, j: int| 0 <= i < j < vo.len() implies lex_le(
        vkey(#[trigger] vo[i]),
        vkey(#[trigger] vo[j]),
    ) by {
        assert(key(out[i]) == vkey(out[i]@));
        assert(key(out[j]) == vkey(out[j]@));
    }
    assert forall|q: Seq<int>| #[trigger] key_class(vo, vkey, q) == key_class(vi, vkey, q) by {
        let p = has_key(key, q);
        let sp = has_key(vkey, q);
        vstd::seq_lib::lemma_filter_view_commute(out, p, sp);
        vstd::seq_lib::lemma_filter_view_commute(input, p, sp);
        assert(key_class(out, key, q) == key_class(input, key, q));
    }
}

/// Sorts `v` stably by key.
pub fn stable_sort<T: SortKey>(v: Vec<T>) -> (r: Vec<T>)
    ensures
        is_stable_sort(v@, r@, key_of::<T>()),
        r@.len() == v@.len(),
{
    let ghost orig = v@;
    let mut input = v;
    let mut out: Vec<T> = Vec::new();
    assert(orig.skip(orig.len() as int) =~= Seq::<T>::empty());
    proof {
        assert forall|q: Seq<int>| #[trigger] key_class(out@, key_of::<T>(), q) == key_class(
            orig.skip(input@.len() as int),
            key_of::<T>(),
            q,
        ) by {
            reveal(Seq::filter);
            assert(out@ =~= orig.skip(input@.len() as int));
        }
    }
    while input.len() > 0
        invariant
            input@ == orig.take(input@.len() as int),
            input@.len() <= orig.len(),
            out@.len() + input@.len() == orig.len(),
            sorted_by(out@, key_of::<T>()),
            forall|q: Seq<int>| #[trigger]
                key_class(out@, key_of::<T>(), q) == key_class(orig.skip(input@.len() as int), key_of::<T>(), q),
        decreases input@.len(),
    {
        let ghost n = input@.len() as int;
        let x = input.pop().unwrap();
        assert(x == orig[n - 1]);
        let ghost kx = x.sort_key();
        let mut p: usize = 0;
        while p < out.len() && !x.key_le(&out[p])
            invariant
                p <= out@.len(),
                kx == x.sort_key(),
                forall|j: int| 0 <= j < p ==> !lex_le(kx, #[trigger] out@[j].sort_key()),
            decreases out@.len() - p,
        {
            p += 1;
        }
        let ghost before = out@;
        out.insert(p, x);
        proof {
            assert(out@ =~= before.take(p as int) + seq![x] + before.skip(p as int));
            // ordering
            assert forall|i: int, j: int| 0 <= i < j < out@.len() implies lex_le(
                #[trigger] out@[i].sort_key(),
                #[trigger] out@[j].sort_key(),
            ) by {
                if j < p {
                    assert(out@[i] == before[i] && out@[j] == before[j]);
                } else if j == p {
                    assert(out@[i] == before[i]);
                    lemma_lex_total(kx, before[i].sort_key());
                } else if i == p {
                    assert(out@[j] == before[j - 1]);
                    assert(lex_le(kx, before[p as int].sort_key()));
                    if j - 1 > p {
                        lemma_lex_trans(
                            kx,
                            before[p as int].sort_key(),
                            before[j - 1].sort_key(),
                        );
                    }
                } else if i < p {
                    assert(out@[i] == before[i] && out@[j] == before[j - 1]);
                } else {
                    assert(out@[i] == before[i - 1] && out@[j] == before[j - 1]);
                }
            }
            // classes
            let src = orig.skip(n - 1);
            assert(src =~= seq![x] + orig.skip(n));
            assert forall|q: Seq<int>| #[trigger] key_class(out@, key_of::<T>(), q) == key_class(src, key_of::<T>(), q) by {
                let pr = has_key(key_of::<T>(), q);
                assert(key_class(before, key_of::<T>(), q) == before.filter(pr));
                assert(key_class(out@, key_of::<T>(), q) == out@.filter(pr));
                assert(key_class(src, key_of::<T>(), q) == src.filter(pr));
                assert(key_class(orig.skip(n), key_of::<T>(), q) == orig.skip(n).filter(pr));
                Seq::filter_distributes_over_add(before.take(p as int) + seq![x], before.skip(p as int), pr);
                Seq::filter_distributes_over_add(before.take(p as int), seq![x], pr);
                Seq::filter_distributes_over_add(before.take(p as int), before.skip(p as int), pr);
                assert(before =~= before.take(p as int) + before.skip(p as int));
                orig.skip(n).lemma_filter_prepend(x, pr);
                reveal(Seq::filter);
                assert(seq![x].drop_last() =~= Seq::<T>::empty());
                if q == kx {
                    assert forall|j: int| 0 <= j < before.take(p as int).len() implies !pr(
                        #[trigger] before.take(p as int)[j],
                    ) by {
                        lemma_lex_refl(kx);
                        assert(before.take(p as int)[j] == before[j]);
                    }
                    assert(before.take(p as int).all(|e: T| !pr(e)));
                    before.take(p as int).lemma_all_neg_filter_empty(pr);
                    assert(before.take(p as int).filter(pr) =~= Seq::<T>::empty());
                    assert(key_class(before, key_of::<T>(), q) =~= before.skip(p as int).filter(pr));
                }
                assert(key_class(before, key_of::<T>(), q) == key_class(orig.skip(n), key_of::<T>(), q));
            }
        }
    }
    assert(orig.skip(0) =~= orig);
    out
}

} // verus!

verus! {

/// The class of a sequence with an item put in front.
pub proof fn lemma_class_prepend<A>(x: A, rest: Seq<A>, key: spec_fn(A) -> Seq<int>, q: Seq<int>)
    ensures
        key_class(seq![x] + rest, key, q) == (if key(x) == q {
            seq![x]
        } else {
            Seq::empty()
        }) + key_class(rest, key, q),
{
    rest.lemma_filter_prepend(x, has_key(key, q));
}

/// An item of a class is an item of the sequence.
pub proof fn lemma_class_member<A>(s: Seq<A>, key: spec_fn(A) -> Seq<int>, q: Seq<int>, x: A)
    requires
        key_class(s, key, q).contains(x),
    ensures
        s.contains(x),
{
    s.lemma_filter_contains_rev(has_key(key, q), x);
}

/// Two sequences ordered by `key` that hold, for every key, the same items
/// in the same order, are equal.
pub proof fn lemma_sorted_classes_unique<A>(a: Seq<A>, b: Seq<A>, key: spec_fn(A) -> Seq<int>)
    requires
        sorted_by(a, key),
        sorted_by(b, key),
        forall|q: Seq<int>| #[trigger] key_class(a, key, q) == key_class(b, key, q),
    ensures
        a == b,
    decreases a.len(),
{
    if a.len() == 0 {
        if b.len() > 0 {
            let q = key(b[0]);
            assert(b =~= seq![b[0]] + b.drop_first());
            lemma_class_prepend(b[0], b.drop_first(), key, q);
            assert(key_class(a, key, q).len() == 0) by {
                reveal(Seq::filter);
            }
            assert(key_class(b, key, q).len() > 0);
        }
        assert(a =~= b);
    } else {
        let m = key(a[0]);
        let a1 = a.drop_first();
        assert(a =~= seq![a[0]] + a1);
        lemma_class_prepend(a[0], a1, key, m);
        assert(key_class(a, key, m) == seq![a[0]] + key_class(a1, key, m));
        assert(key_class(b, key, m).len() > 0);
        assert(b.len() > 0) by {
            if b.len() == 0 {
                reveal(Seq::filter);
                assert(key_class(b, key, m).len() == 0);
            }
        }
        let m2 = key(b[0]);
        let b1 = b.drop_first();
        assert(b =~= seq![b[0]] + b1);
        lemma_class_prepend(b[0], b1, key, m2);
        lemma_class_prepend(b[0], b1, key, m);
        assert(lex_le(m, m2)) by {
            assert(key_class(a, key, m2) == key_class(b, key, m2));
            assert(key_class(b, key, m2)[0] == b[0]);
            assert(key_class(a, key, m2).contains(b[0]));
            lemma_class_member(a, key, m2, b[0]);
            let j = choose|j: int| 0 <= j < a.len() && a[j] == b[0];
            if j > 0 {
                assert(lex_le(key(a[0]), key(a[j])));
            } else {
                lemma_lex_refl(m);
            }
        }
        assert(lex_le(m2, m)) by {
            assert(key_class(a, key, m)[0] == a[0]);
            assert(key_class(b, key, m).contains(a[0]));
            lemma_class_member(b, key, m, a[0]);
            let j = choose|j: int| 0 <= j < b.len() && b[j] == a[0];
            if j > 0 {
                assert(lex_le(key(b[0]), key(b[j])));
            } else {
                lemma_lex_refl(m);
            }
        }
        lemma_lex_antisym(m, m2);
        assert(a[0] == key_class(a, key, m)[0]);
        assert(b[0] == key_class(b, key, m)[0]);
        assert forall|q: Seq<int>| #[trigger] key_class(a1, key, q) == key_class(b1, key, q) by {
            lemma_class_prepend(a[0], a1, key, q);
            lemma_class_prepend(b[0], b1, key, q);
            assert(key_class(a, key, q) == key_class(b, key, q));
            if q == m {
                assert(key_class(a1, key, q) =~= key_class(a, key, q).drop_first());
                assert(key_class(b1, key, q) =~= key_class(b, key, q).drop_first());
            } else {
                assert(key_class(a1, key, q) =~= key_class(a, key, q));
                assert(key_class(b1, key, q) =~= key_class(b, key, q));
            }
        }
        assert(sorted_by(a1, key)) by {
            assert forall|i: int, j: int| 0 <= i < j < a1.len() implies lex_le(
                key(#[trigger] a1[i]),
                key(#[trigger] a1[j]),
            ) by {
                assert(a1[i] == a[i + 1] && a1[j] == a[j + 1]);
            }
        }
        assert(sorted_by(b1, key)) by {
            assert forall|i: int, j: int| 0 <= i < j < b1.len() implies lex_le(
                key(#[trigger] b1[i]),
                key(#[trigger] b1[j]),
            ) by {
                assert(b1[i] == b[i + 1] && b1[j] == b[j + 1]);
            }
        }
        lemma_sorted_classes_unique(a1, b1, key);
        assert(a =~= b);
    }
}

/// A stable sort has one result: two stable sorts of the same input by the
/// same key are equal.
pub proof fn lemma_stable_sort_unique<A>(
    input: Seq<A>,
    a: Seq<A>,
    b: Seq<A>,
    key: spec_fn(A) -> Seq<int>,
)
    requires
        is_stable_sort(input, a, key),
        is_stable_sort(input, b, key),
    ensures
        a == b,
{
    assert forall|q: Seq<int>| #[trigger] key_class(a, key, q) == key_class(b, key, q) by {
        assert(key_class(a, key, q) == key_class(input, key, q));
        assert(key_class(b, key, q) == key_class(input, key, q));
    }
    lemma_sorted_classes_unique(a, b, key);
}

} // verus!

verus! {

/// No two items of `s` share a key.
pub open spec fn distinct_keys<A>(s: Seq<A>, key: spec_fn(A) -> Seq<int>) -> bool {
    forall|i: int, j: int| 0 <= i < j < s.len() ==> key(#[trigger] s[i]) != key(#[trigger] s[j])
}

/// In a sequence whose keys are distinct, the class of a key is the one
/// item with that key, or nothing.
pub proof fn lemma_class_of_distinct<A>(s: Seq<A>, key: spec_fn(A) -> Seq<int>, q: Seq<int>)
    requires
        distinct_keys(s, key),
    ensures
        (forall|j: int| 0 <= j < s.len() ==> key(#[trigger] s[j]) != q) ==> key_class(s, key, q)
            == Seq::<A>::empty(),
        forall|j: int| 0 <= j < s.len() && key(#[trigger] s[j]) == q ==> key_class(s, key, q) == seq![s[j]],
    decreases s.len(),
{
    reveal(Seq::filter);
    if s.len() > 0 {
        let r = s.drop_last();
        assert(distinct_keys(r, key)) by {
            assert forall|i: int, j: int| 0 <= i < j < r.len() implies key(#[trigger] r[i]) != key(
                #[trigger] r[j],
            ) by {
                assert(r[i] == s[i] && r[j] == s[j]);
            }
        }
        lemma_class_of_distinct(r, key, q);
        assert(key_class(s, key, q) == if has_key(key, q)(s.last()) {
            key_class(r, key, q).push(s.last())
        } else {
            key_class(r, key, q)
        });
        if key(s.last()) == q {
            assert forall|j: int| 0 <= j < r.len() implies key(#[trigger] r[j]) != q by {
                assert(r[j] == s[j]);
            }
            assert(key_class(r, key, q) =~= Seq::<A>::empty());
            assert forall|j: int| 0 <= j < s.len() && key(#[trigger] s[j]) == q implies key_class(
                s,
                key,
                q,
            ) == seq![s[j]] by {
                if j < s.len() - 1 {
                    assert(key(s[j]) != key(s[s.len() - 1]));
                }
                assert(key_class(s, key, q) =~= seq![s.last()]);
            }
        } else {
            assert forall|j: int| 0 <= j < s.len() && key(#[trigger] s[j]) == q implies key_class(
                s,
                key,
                q,
            ) == seq![s[j]] by {
                assert(r[j] == s[j]);
            }
            if forall|j: int| 0 <= j < s.len() ==> key(#[trigger] s[j]) != q {
                assert forall|j: int| 0 <= j < r.len() implies key(#[trigger] r[j]) != q by {
                    assert(r[j] == s[j]);
                }
            }
        }
    }
}

/// Two sequences with the same items, each without repeated keys, have the
/// same stable sort.
pub proof fn lemma_stable_sort_same_items<A>(
    a: Seq<A>,
    b: Seq<A>,
    sa: Seq<A>,
    sb: Seq<A>,
    key: spec_fn(A) -> Seq<int>,
)
    requires
        distinct_keys(a, key),
        distinct_keys(b, key),
        forall|x: A| a.contains(x) <==> b.contains(x),
        is_stable_sort(a, sa, key),
        is_stable_sort(b, sb, key),
    ensures
        sa == sb,
{
    assert forall|q: Seq<int>| #[trigger] key_class(sa, key, q) == key_class(sb, key, q) by {
        lemma_class_of_distinct(a, key, q);
        lemma_class_of_distinct(b, key, q);
        assert(key_class(sa, key, q) == key_class(a, key, q));
        assert(key_class(sb, key, q) == key_class(b, key, q));
        if exists|j: int| 0 <= j < a.len() && key(a[j]) == q {
            let j = choose|j: int| 0 <= j < a.len() && key(a[j]) == q;
            assert(a.contains(a[j]));
            assert(b.contains(a[j]));
            let k = choose|k: int| 0 <= k < b.len() && b[k] == a[j];
            assert(key(b[k]) == q);
        } else if exists|k: int| 0 <= k < b.len() && key(b[k]) == q {
            let k = choose|k: int| 0 <= k < b.len() && key(b[k]) == q;
            assert(b.contains(b[k]));
            assert(a.contains(b[k]));
            let j = choose|j: int| 0 <= j < a.len() && a[j] == b[k];
            assert(key(a[j]) == q);
        }
    }
    lemma_sorted_classes_unique(sa, sb, key);
}

} // verus!
