//! The genre tree: genres nested under their parents, each with the number
//! of films filed under it.
use vstd::prelude::*;

use crate::export_rows::GenreRow;
use crate::library_model::GenreTreeNode;
use crate::search::{clone_opt, opt_view};
use crate::text::{chars_of, string_of};

verus! {

/// The film count of genre `id`: the last count read for it, 0 when there
/// is none.
pub open spec fn count_of(counts: Seq<(i64, i64)>, id: i64) -> i64
    decreases counts.len(),
{
    if counts.len() == 0 {
        0
    } else if counts.last().0 == id {
        counts.last().1
    } else {
        count_of(counts.drop_last(), id)
    }
}

/// The test "the genre's parent is `parent`" (no parent for `None`).
pub open spec fn child_of(parent: Option<i64>) -> spec_fn(GenreRow) -> bool {
    |g: GenreRow| g.parent_id == parent
}

/// `r` is the forest of genres under `parent`, read `fuel` levels deep: one
/// node per genre whose parent is `parent`, in the order of the rows, each
/// with the genre's id, name, period and film count and, below it, the
/// forest of its own sub-genres (nothing once the levels run out).
pub open spec fn forest_is(
    r: Seq<GenreTreeNode>,
    rows: Seq<GenreRow>,
    counts: Seq<(i64, i64)>,
    parent: Option<i64>,
    fuel: nat,
) -> bool
    decreases fuel,
{
    let kids = rows.filter(child_of(parent));
    &&& r.len() == kids.len()
    &&& forall|i: int|
        0 <= i < r.len() ==> {
            &&& (#[trigger] r[i]).id == kids[i].id
            &&& r[i].name@ == kids[i].name@
            &&& opt_view(r[i].period) == opt_view(kids[i].period)
            &&& r[i].film_count == count_of(counts, kids[i].id)
            &&& if fuel == 0 {
                r[i].children@.len() == 0
            } else {
                forest_is(r[i].children@, rows, counts, Some(kids[i].id), (fuel - 1) as nat)
            }
        }
}

/// The film count of genre `id`.
fn count_for(counts: &Vec<(i64, i64)>, id: i64) -> (r: i64)
    ensures
        r == count_of(counts@, id),
{
    let mut k = counts.len();
    assert(counts@.take(k as int) =~= counts@);
    while k > 0
        invariant
            k <= counts@.len(),
            count_of(counts@, id) == count_of(counts@.take(k as int), id),
        decreases k,
    {
        assert(counts@.take(k as int).drop_last() =~= counts@.take(k - 1));
        if counts[k - 1].0 == id {
            return counts[k - 1].1;
        }
        k -= 1;
    }
    0
}

/// The forest of genres under `parent`, `fuel` levels deep.
fn build_tree(
    rows: &Vec<GenreRow>,
    counts: &Vec<(i64, i64)>,
    parent: Option<i64>,
    fuel: usize,
) -> (r: Vec<GenreTreeNode>)
    ensures
        forest_is(r@, rows@, counts@, parent, fuel as nat),
    decreases fuel,
{
    let ghost pred = child_of(parent);
    let mut out: Vec<GenreTreeNode> = Vec::new();
    let mut k: usize = 0;
    while k < rows.len()
        invariant
            k <= rows@.len(),
            pred == child_of(parent),
            out@.len() == rows@.take(k as int).filter(pred).len(),
            forall|i: int|
                0 <= i < out@.len() ==> {
                    let kid = rows@.take(k as int).filter(pred)[i];
                    &&& (#[trigger] out@[i]).id == kid.id
                    &&& out@[i].name@ == kid.name@
                    &&& opt_view(out@[i].period) == opt_view(kid.period)
                    &&& out@[i].film_count == count_of(counts@, kid.id)
                    &&& if fuel == 0 {
                        out@[i].children@.len() == 0
                    } else {
                        forest_is(out@[i].children@, rows@, counts@, Some(kid.id), (fuel - 1) as nat)
                    }
                },
        decreases rows@.len() - k,
    {
        let g = &rows[k];
        proof {
            assert(rows@.take(k + 1) =~= rows@.take(k as int).push(rows@[k as int]));
            rows@.take(k as int).lemma_filter_push(rows@[k as int], pred);
        }
        if g.parent_id == parent {
            let children = if fuel == 0 {
                Vec::new()
            } else {
                build_tree(rows, counts, Some(g.id), fuel - 1)
            };
            let node = GenreTreeNode {
                id: g.id,
                name: string_of(&chars_of(g.name.as_str())),
                period: clone_opt(&g.period),
                film_count: count_for(counts, g.id),
                children,
            };
            let ghost before = out@;
            out.push(node);
            assert forall|i: int| 0 <= i < out@.len() implies {
                let kid = rows@.take(k + 1).filter(pred)[i];
                &&& (#[trigger] out@[i]).id == kid.id
                &&& out@[i].name@ == kid.name@
                &&& opt_view(out@[i].period) == opt_view(kid.period)
                &&& out@[i].film_count == count_of(counts@, kid.id)
                &&& if fuel == 0 {
                    out@[i].children@.len() == 0
                } else {
                    forest_is(out@[i].children@, rows@, counts@, Some(kid.id), (fuel - 1) as nat)
                }
            } by {
                if i < before.len() {
                    assert(out@[i] == before[i]);
                }
            }
        }
        k += 1;
    }
    assert(rows@.take(k as int) =~= rows@);
    out
}

/// The genre tree: the genres without a parent, each with its sub-genres
/// below it, read as many levels deep as there are genres (where the
/// parents form no cycle that is the whole tree: see
/// `lemma_genre_tree_complete`).
pub fn build_genre_tree(rows: &Vec<GenreRow>, counts: &Vec<(i64, i64)>) -> (r: Vec<GenreTreeNode>)
    ensures
        forest_is(r@, rows@, counts@, None, rows@.len()),
{
    build_tree(rows, counts, None, rows.len())
}


/// `dep` ranks the genres so that every genre ranks above its parent and
/// below the number of genres: the parents form no cycle.
pub open spec fn ranked(rows: Seq<GenreRow>, dep: spec_fn(i64) -> int) -> bool {
    forall|i: int|
        0 <= i < rows.len() ==> {
            &&& 0 <= dep((#[trigger] rows[i]).id) < rows.len()
            &&& (rows[i].parent_id matches Some(p) ==> dep(rows[i].id) > dep(p))
        }
}

/// Under a ranked parent `x` with `fuel` levels left, where the levels
/// reach past the highest rank, reading deeper changes nothing.
proof fn lemma_forest_deeper(
    r: Seq<GenreTreeNode>,
    rows: Seq<GenreRow>,
    counts: Seq<(i64, i64)>,
    x: i64,
    fuel: nat,
    more: nat,
    dep: spec_fn(i64) -> int,
)
    requires
        ranked(rows, dep),
        dep(x) + fuel + 1 >= rows.len(),
        fuel <= more,
        forest_is(r, rows, counts, Some(x), fuel),
    ensures
        forest_is(r, rows, counts, Some(x), more),
    decreases fuel,
{
    let kids = rows.filter(child_of(Some(x)));
    assert forall|i: int| 0 <= i < kids.len() implies dep(#[trigger] kids[i].id) > dep(x) && dep(kids[i].id) < rows.len() by {
        lemma_filter_elem(rows, child_of(Some(x)), i);
    }
    if fuel == 0 {
        if more > 0 {
            assert forall|i: int| 0 <= i < r.len() implies forest_is((#[trigger] r[i]).children@, rows, counts, Some(kids[i].id), (more - 1) as nat) by {
                lemma_no_grandchildren(rows, counts, kids[i].id, (more - 1) as nat, dep);
                assert(r[i].children@ == Seq::<GenreTreeNode>::empty());
            }
        }
    } else {
        assert forall|i: int| 0 <= i < r.len() implies forest_is((#[trigger] r[i]).children@, rows, counts, Some(kids[i].id), (more - 1) as nat) by {
            lemma_forest_deeper(r[i].children@, rows, counts, kids[i].id, (fuel - 1) as nat, (more - 1) as nat, dep);
        }
    }
}

/// An element of a filtered sequence comes from the sequence.
proof fn lemma_filter_elem(s: Seq<GenreRow>, p: spec_fn(GenreRow) -> bool, i: int)
    requires
        0 <= i < s.filter(p).len(),
    ensures
        exists|j: int| 0 <= j < s.len() && s[j] == s.filter(p)[i],
        p(s.filter(p)[i]),
{
    s.lemma_filter_pred(p, i);
    s.lemma_filter_contains_rev(p, s.filter(p)[i]);
}

/// A genre ranked at the top has no sub-genres: under it the forest is
/// empty however deep it is read.
proof fn lemma_no_grandchildren(
    rows: Seq<GenreRow>,
    counts: Seq<(i64, i64)>,
    y: i64,
    fuel: nat,
    dep: spec_fn(i64) -> int,
)
    requires
        ranked(rows, dep),
        dep(y) + 1 >= rows.len(),
    ensures
        forest_is(Seq::<GenreTreeNode>::empty(), rows, counts, Some(y), fuel),
{
    let kids = rows.filter(child_of(Some(y)));
    if kids.len() > 0 {
        lemma_filter_elem(rows, child_of(Some(y)), 0);
        let j = choose|j: int| 0 <= j < rows.len() && rows[j] == kids[0];
        assert(rows[j].parent_id == Some(y));
        assert(dep(rows[j].id) > dep(y));
    }
}

/// For genres whose parents form no cycle, the tree read as many levels
/// deep as there are genres is the whole tree: reading it deeper gives the
/// same tree.
pub proof fn lemma_genre_tree_complete(
    r: Seq<GenreTreeNode>,
    rows: Seq<GenreRow>,
    counts: Seq<(i64, i64)>,
    dep: spec_fn(i64) -> int,
    more: nat,
)
    requires
        ranked(rows, dep),
        more >= rows.len(),
        forest_is(r, rows, counts, None, rows.len()),
    ensures
        forest_is(r, rows, counts, None, more),
{
    let n = rows.len();
    let kids = rows.filter(child_of(None));
    if n > 0 {
        assert forall|i: int| 0 <= i < r.len() implies forest_is((#[trigger] r[i]).children@, rows, counts, Some(kids[i].id), (more - 1) as nat) by {
            lemma_filter_elem(rows, child_of(None), i);
            let j = choose|j: int| 0 <= j < rows.len() && rows[j] == kids[i];
            assert(dep(rows[j].id) >= 0);
            lemma_forest_deeper(r[i].children@, rows, counts, kids[i].id, (n - 1) as nat, (more - 1) as nat, dep);
        }
    } else {
        assert(kids.len() == 0);
    }
}
} // verus!
