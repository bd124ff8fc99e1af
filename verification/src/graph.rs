//! The relation graph of the knowledge base: which entries are shown, the
//! links between them and how many relations each one takes part in.
use vstd::prelude::*;

use crate::library_model::GraphLink;
use crate::text::{push_signed, signed_decimal, string_of};

verus! {

/// A relation between two entries.
#[derive(Debug)]
pub struct Relation {
    pub from_id: i64,
    pub to_id: i64,
    pub relation_type: String,
}

/// Relation `r` joins `a` and `b`, in either direction.
pub open spec fn joins(r: Relation, a: i64, b: i64) -> bool {
    (r.from_id == a && r.to_id == b) || (r.from_id == b && r.to_id == a)
}

/// Some relation joins `a` and `b`.
pub open spec fn adjacent(rels: Seq<Relation>, a: i64, b: i64) -> bool {
    exists|k: int| 0 <= k < rels.len() && joins(#[trigger] rels[k], a, b)
}

/// `n` is at most two relations away from `c`.
pub open spec fn near(rels: Seq<Relation>, c: i64, n: i64) -> bool {
    n == c || adjacent(rels, c, n) || exists|m: i64| adjacent(rels, c, m) && #[trigger] adjacent(rels, m, n)
}

/// Relation `r` has `n` at one end.
pub open spec fn touches(r: Relation, n: i64) -> bool {
    r.from_id == n || r.to_id == n
}

/// `n` takes part in some relation.
pub open spec fn related(rels: Seq<Relation>, n: i64) -> bool {
    exists|k: int| 0 <= k < rels.len() && touches(#[trigger] rels[k], n)
}

/// The entries shown: around a centre, those at most two relations away
/// from it (the centre itself always); without one, every entry that takes
/// part in a relation.
pub open spec fn shown(rels: Seq<Relation>, center: Option<i64>, n: i64) -> bool {
    match center {
        Some(c) => near(rels, c, n),
        None => related(rels, n),
    }
}

/// No id occurs twice in `s`.
pub open spec fn no_repeats(s: Seq<i64>) -> bool {
    forall|i: int, j: int| 0 <= i < j < s.len() ==> s[i] != s[j]
}

/// Whether `v` holds `x`.
fn holds(v: &Vec<i64>, x: i64) -> (r: bool)
    ensures
        r == v@.contains(x),
{
    let mut i: usize = 0;
    while i < v.len()
        invariant
            i <= v@.len(),
            forall|j: int| 0 <= j < i ==> v@[j] != x,
        decreases v@.len() - i,
    {
        if v[i] == x {
            return true;
        }
        i += 1;
    }
    false
}

/// Adds `x` unless it is there.
fn add_id(v: &mut Vec<i64>, x: i64)
    requires
        no_repeats(old(v)@),
    ensures
        no_repeats(final(v)@),
        forall|y: i64| final(v)@.contains(y) <==> (old(v)@.contains(y) || y == x),
{
    if !holds(v, x) {
        let ghost o = v@;
        v.push(x);
        assert forall|y: i64| v@.contains(y) <==> (o.contains(y) || y == x) by {
            if o.contains(y) {
                let i = choose|i: int| 0 <= i < o.len() && o[i] == y;
                assert(v@[i] == y);
            }
            if y == x {
                assert(v@[o.len() as int] == x);
            }
            if v@.contains(y) {
                let i = choose|i: int| 0 <= i < v@.len() && v@[i] == y;
                if i < o.len() {
                    assert(o[i] == y);
                }
            }
        }
    }
}

/// Adds every entry joined to `m` by a relation.
fn add_neighbours(rels: &Vec<Relation>, m: i64, v: &mut Vec<i64>)
    requires
        no_repeats(old(v)@),
    ensures
        no_repeats(final(v)@),
        forall|y: i64| final(v)@.contains(y) <==> (old(v)@.contains(y) || adjacent(rels@, m, y)),
{
    let ghost o = v@;
    let mut k: usize = 0;
    while k < rels.len()
        invariant
            k <= rels@.len(),
            no_repeats(v@),
            forall|y: i64| #![trigger v@.contains(y)] v@.contains(y) <==> (o.contains(y) || exists|j: int| 0 <= j < k && joins(#[trigger] rels@[j], m, y)),
        decreases rels@.len() - k,
    {
        let r = &rels[k];
        let ghost before = v@;
        if r.from_id == m {
            add_id(v, r.to_id);
        }
        let ghost mid = v@;
        if r.to_id == m {
            add_id(v, r.from_id);
        }
        assert forall|y: i64| v@.contains(y) <==> (o.contains(y) || exists|j: int| 0 <= j < k + 1 && joins(#[trigger] rels@[j], m, y)) by {
            if exists|j: int| 0 <= j < k + 1 && joins(#[trigger] rels@[j], m, y) {
                let j = choose|j: int| 0 <= j < k + 1 && joins(#[trigger] rels@[j], m, y);
                if j < k {
                    assert(before.contains(y));
                }
            }
            if before.contains(y) && !o.contains(y) {
                let j = choose|j: int| 0 <= j < k && joins(#[trigger] rels@[j], m, y);
                assert(0 <= j < k + 1 && joins(rels@[j], m, y));
            }
            if v@.contains(y) && !before.contains(y) {
                assert(joins(rels@[k as int], m, y));
            }
        }
        k += 1;
    }
}

/// The ids of the entries shown, each once.
pub fn graph_node_ids(rels: &Vec<Relation>, center: Option<i64>) -> (r: Vec<i64>)
    ensures
        no_repeats(r@),
        forall|n: i64| r@.contains(n) <==> shown(rels@, center, n),
{
    let mut out: Vec<i64> = Vec::new();
    match center {
        Some(c) => {
            out.push(c);
            let mut first: Vec<i64> = Vec::new();
            add_neighbours(rels, c, &mut first);
            assert forall|y: i64| out@.contains(y) <==> y == c by {
                if y == c {
                    assert(out@[0] == c);
                }
            }
            let mut i: usize = 0;
            while i < first.len()
                invariant
                    i <= first@.len(),
                    no_repeats(out@),
                    forall|y: i64| first@.contains(y) <==> adjacent(rels@, c, y),
                    forall|y: i64| #![trigger out@.contains(y)] out@.contains(y) <==> (y == c || exists|j: int| 0 <= j < i && (#[trigger] first@[j] == y || adjacent(rels@, first@[j], y))),
                decreases first@.len() - i,
            {
                let m = first[i];
                let ghost before = out@;
                add_id(&mut out, m);
                let ghost mid = out@;
                add_neighbours(rels, m, &mut out);
                assert forall|y: i64| out@.contains(y) <==> (y == c || exists|j: int| 0 <= j < i + 1 && (#[trigger] first@[j] == y || adjacent(rels@, first@[j], y))) by {
                    if exists|j: int| 0 <= j < i + 1 && (#[trigger] first@[j] == y || adjacent(rels@, first@[j], y)) {
                        let j = choose|j: int| 0 <= j < i + 1 && (#[trigger] first@[j] == y || adjacent(rels@, first@[j], y));
                        if j < i {
                            assert(before.contains(y));
                        }
                    }
                    if before.contains(y) && y != c {
                        let j = choose|j: int| 0 <= j < i && (#[trigger] first@[j] == y || adjacent(rels@, first@[j], y));
                        assert(0 <= j < i + 1);
                    }
                }
                i += 1;
            }
            assert forall|n: i64| out@.contains(n) <==> near(rels@, c, n) by {
                if out@.contains(n) && n != c {
                    let j = choose|j: int| 0 <= j < first@.len() && (#[trigger] first@[j] == n || adjacent(rels@, first@[j], n));
                    assert(first@.contains(first@[j]));
                    if first@[j] != n {
                        assert(adjacent(rels@, c, first@[j]) && adjacent(rels@, first@[j], n));
                    }
                }
                if adjacent(rels@, c, n) {
                    assert(first@.contains(n));
                    let j = choose|j: int| 0 <= j < first@.len() && first@[j] == n;
                    assert(first@[j] == n);
                }
                if exists|m: i64| adjacent(rels@, c, m) && #[trigger] adjacent(rels@, m, n) {
                    let m = choose|m: i64| adjacent(rels@, c, m) && #[trigger] adjacent(rels@, m, n);
                    assert(first@.contains(m));
                    let j = choose|j: int| 0 <= j < first@.len() && first@[j] == m;
                    assert(adjacent(rels@, first@[j], n));
                }
            }
        },
        None => {
            let mut k: usize = 0;
            while k < rels.len()
                invariant
                    k <= rels@.len(),
                    no_repeats(out@),
                    forall|y: i64| #![trigger out@.contains(y)] out@.contains(y) <==> exists|j: int| 0 <= j < k && touches(#[trigger] rels@[j], y),
                decreases rels@.len() - k,
            {
                let ghost before = out@;
                add_id(&mut out, rels[k].from_id);
                add_id(&mut out, rels[k].to_id);
                assert forall|y: i64| out@.contains(y) <==> exists|j: int| 0 <= j < k + 1 && touches(#[trigger] rels@[j], y) by {
                    if exists|j: int| 0 <= j < k + 1 && touches(#[trigger] rels@[j], y) {
                        let j = choose|j: int| 0 <= j < k + 1 && touches(#[trigger] rels@[j], y);
                        if j < k {
                            assert(before.contains(y));
                        }
                    }
                    if before.contains(y) {
                        let j = choose|j: int| 0 <= j < k && touches(#[trigger] rels@[j], y);
                        assert(0 <= j < k + 1);
                    }
                }
                k += 1;
            }
        },
    }
    out
}


/// The name of an entry's node in the graph: `e` and its id.
pub open spec fn node_name(id: i64) -> Seq<char> {
    seq!['e'] + signed_decimal(id as int)
}

/// The name of an entry's node in the graph.
pub fn node_name_of(id: i64) -> (r: String)
    ensures
        r@ == node_name(id),
{
    let mut out: Vec<char> = Vec::new();
    out.push('e');
    push_signed(&mut out, id);
    string_of(&out)
}

/// The text of a link: source node, target node, relation type.
pub open spec fn link_view(l: GraphLink) -> (Seq<char>, Seq<char>, Seq<char>) {
    (l.source@, l.target@, l.role@)
}

/// The link drawn for a relation.
pub open spec fn link_of(r: Relation) -> (Seq<char>, Seq<char>, Seq<char>) {
    (node_name(r.from_id), node_name(r.to_id), r.relation_type@)
}

/// The test "both ends of the relation are shown".
pub open spec fn within(nodes: Seq<i64>) -> spec_fn(Relation) -> bool {
    |r: Relation| nodes.contains(r.from_id) && nodes.contains(r.to_id)
}

/// The links of the graph: one per relation whose two ends are shown, in
/// the order of the relations.
pub fn graph_links(rels: &Vec<Relation>, nodes: &Vec<i64>) -> (r: Vec<GraphLink>)
    ensures
        r@.map_values(|l: GraphLink| link_view(l)) == rels@.filter(within(nodes@)).map_values(
            |x: Relation| link_of(x),
        ),
{
    let ghost pred = within(nodes@);
    let mut out: Vec<GraphLink> = Vec::new();
    let mut k: usize = 0;
    while k < rels.len()
        invariant
            k <= rels@.len(),
            pred == within(nodes@),
            out@.map_values(|l: GraphLink| link_view(l)) == rels@.take(k as int).filter(pred).map_values(
                |x: Relation| link_of(x),
            ),
        decreases rels@.len() - k,
    {
        let r = &rels[k];
        proof {
            assert(rels@.take(k + 1) =~= rels@.take(k as int).push(rels@[k as int]));
            rels@.take(k as int).lemma_filter_push(rels@[k as int], pred);
        }
        if holds(nodes, r.from_id) && holds(nodes, r.to_id) {
            let ghost before = out@;
            let link = GraphLink {
                source: node_name_of(r.from_id),
                target: node_name_of(r.to_id),
                role: string_of(&crate::text::chars_of(r.relation_type.as_str())),
            };
            out.push(link);
            assert(out@.map_values(|l: GraphLink| link_view(l)) =~= before.map_values(|l: GraphLink| link_view(l)).push(link_of(*r)));
            assert(rels@.take(k + 1).filter(pred).map_values(|x: Relation| link_of(x)) =~= rels@.take(k as int).filter(pred).map_values(|x: Relation| link_of(x)).push(link_of(*r)));
        }
        k += 1;
    }
    assert(rels@.take(k as int) =~= rels@);
    out
}

/// How many ends of relations whose two ends are shown are `id` (a
/// relation of `id` with itself counts twice).
pub open spec fn relation_count(rels: Seq<Relation>, nodes: Seq<i64>, id: i64) -> nat
    decreases rels.len(),
{
    if rels.len() == 0 {
        0
    } else {
        let r = rels.last();
        let here: nat = if within(nodes)(r) {
            (if r.from_id == id { 1nat } else { 0nat }) + (if r.to_id == id { 1nat } else { 0nat })
        } else {
            0
        };
        relation_count(rels.drop_last(), nodes, id) + here
    }
}

proof fn lemma_relation_count_bound(rels: Seq<Relation>, nodes: Seq<i64>, id: i64)
    ensures
        relation_count(rels, nodes, id) <= 2 * rels.len(),
    decreases rels.len(),
{
    if rels.len() > 0 {
        lemma_relation_count_bound(rels.drop_last(), nodes, id);
    }
}

/// How many relations between shown entries `id` takes part in, the
/// measure of its node's size.
pub fn node_relation_count(rels: &Vec<Relation>, nodes: &Vec<i64>, id: i64) -> (r: usize)
    requires
        rels@.len() <= usize::MAX / 2,
    ensures
        r == relation_count(rels@, nodes@, id),
{
    let mut n: usize = 0;
    let mut k: usize = 0;
    while k < rels.len()
        invariant
            k <= rels@.len(),
            rels@.len() <= usize::MAX / 2,
            n == relation_count(rels@.take(k as int), nodes@, id),
        decreases rels@.len() - k,
    {
        proof {
            lemma_relation_count_bound(rels@.take(k as int), nodes@, id);
            assert(rels@.take(k + 1).drop_last() =~= rels@.take(k as int));
        }
        let r = &rels[k];
        if holds(nodes, r.from_id) && holds(nodes, r.to_id) {
            if r.from_id == id {
                n += 1;
            }
            if r.to_id == id {
                n += 1;
            }
        }
        k += 1;
    }
    assert(rels@.take(k as int) =~= rels@);
    n
}

/// The largest relation count among the first `k` shown nodes.
pub open spec fn max_count_upto(rels: Seq<Relation>, nodes: Seq<i64>, k: int) -> nat
    decreases k,
{
    if k <= 0 {
        0
    } else {
        let c = relation_count(rels, nodes, nodes[k - 1]);
        let m = max_count_upto(rels, nodes, k - 1);
        if c > m { c } else { m }
    }
}

/// What node sizes are measured against: the largest relation count of a
/// shown node, 1 when no shown node has a relation.
pub open spec fn count_scale(rels: Seq<Relation>, nodes: Seq<i64>) -> nat {
    let m = max_count_upto(rels, nodes, nodes.len() as int);
    if m == 0 { 1 } else { m }
}

proof fn lemma_max_count_bounds(rels: Seq<Relation>, nodes: Seq<i64>, k: int)
    requires
        0 <= k <= nodes.len(),
    ensures
        forall|i: int| 0 <= i < k ==> relation_count(rels, nodes, #[trigger] nodes[i]) <= max_count_upto(rels, nodes, k),
        k > 0 && max_count_upto(rels, nodes, k) > 0 ==> exists|i: int| 0 <= i < k && relation_count(rels, nodes, #[trigger] nodes[i]) == max_count_upto(rels, nodes, k),
    decreases k,
{
    if k > 0 {
        lemma_max_count_bounds(rels, nodes, k - 1);
    }
}

/// The count node sizes are measured against: no shown node counts more,
/// and one counts exactly that much unless none has a relation (then 1).
pub fn relation_count_scale(rels: &Vec<Relation>, nodes: &Vec<i64>) -> (r: usize)
    requires
        rels@.len() <= usize::MAX / 2,
    ensures
        r == count_scale(rels@, nodes@),
        forall|i: int| 0 <= i < nodes@.len() ==> relation_count(rels@, nodes@, #[trigger] nodes@[i]) <= r,
{
    let mut m: usize = 0;
    let mut k: usize = 0;
    while k < nodes.len()
        invariant
            k <= nodes@.len(),
            rels@.len() <= usize::MAX / 2,
            m == max_count_upto(rels@, nodes@, k as int),
        decreases nodes@.len() - k,
    {
        let c = node_relation_count(rels, nodes, nodes[k]);
        if c > m {
            m = c;
        }
        k += 1;
    }
    proof {
        lemma_max_count_bounds(rels@, nodes@, nodes@.len() as int);
    }
    if m == 0 {
        1
    } else {
        m
    }
}

/// The name of the last entry row with id `id`, empty when there is none.
pub open spec fn label_of(names: Seq<(i64, String)>, id: i64) -> Seq<char>
    decreases names.len(),
{
    if names.len() == 0 {
        seq![]
    } else if names.last().0 == id {
        names.last().1@
    } else {
        label_of(names.drop_last(), id)
    }
}

/// The label of an entry's node: the entry's name (the last row read for
/// its id), empty when the entry is unknown.
pub fn node_label(names: &Vec<(i64, String)>, id: i64) -> (r: String)
    ensures
        r@ == label_of(names@, id),
{
    let mut k = names.len();
    assert(names@.take(k as int) =~= names@);
    while k > 0
        invariant
            k <= names@.len(),
            label_of(names@, id) == label_of(names@.take(k as int), id),
        decreases k,
    {
        assert(names@.take(k as int).drop_last() =~= names@.take(k - 1));
        if names[k - 1].0 == id {
            return string_of(&crate::text::chars_of(names[k - 1].1.as_str()));
        }
        k -= 1;
    }
    assert(names@.take(0) =~= Seq::<(i64, String)>::empty());
    String::new()
}
} // verus!
