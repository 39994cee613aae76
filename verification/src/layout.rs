//! The layout of a class's functions: groups in increasing order, inside
//! each group its orders (vtable slots) in increasing order, and inside
//! each order the distinct signatures in lexicographic order.

use vstd::prelude::*;
use crate::order::{
    lemma_lex_irreflexive, lemma_lex_transitive, lex_lt, lex_sorted, sorted_keys,
    sorted_texts, strictly_increasing,
};
use crate::text::strings_view;

verus! {

/// The groups of a list of placements.
pub open spec fn group_keys(places: Seq<(i32, i32)>) -> Seq<i32> {
    places.map_values(|p: (i32, i32)| p.0)
}

/// Some function is placed at (`k`, `o`).
pub open spec fn has_place(places: Seq<(i32, i32)>, k: i32, o: i32) -> bool {
    exists|e: int| 0 <= e < places.len() && places[e] == (k, o)
}

/// The function `f` is placed at (`k`, `o`).
pub open spec fn placed_sig(places: Seq<(i32, i32)>, sigs: Seq<Seq<char>>, k: i32, o: i32, f: Seq<char>) -> bool {
    exists|e: int| 0 <= e < places.len() && places[e] == (k, o) && sigs[e] == f
}

/// The orders of a group's layout.
pub open spec fn order_keys(l: Seq<(i32, Seq<Seq<char>>)>) -> Seq<i32> {
    l.map_values(|x: (i32, Seq<Seq<char>>)| x.0)
}

/// The groups of a layout.
pub open spec fn layout_keys(r: Seq<(i32, Seq<(i32, Seq<Seq<char>>)>)>) -> Seq<i32> {
    r.map_values(|x: (i32, Seq<(i32, Seq<Seq<char>>)>)| x.0)
}

/// `l` lays out group `k`: each order used in the group once, increasing,
/// with the distinct signatures placed there, sorted.
pub open spec fn is_group_layout(l: Seq<(i32, Seq<Seq<char>>)>, k: i32, sigs: Seq<Seq<char>>, places: Seq<(i32, i32)>) -> bool {
    &&& strictly_increasing(order_keys(l))
    &&& forall|o: i32| #[trigger] order_keys(l).contains(o) <==> has_place(places, k, o)
    &&& forall|a: int| 0 <= a < l.len() ==> lex_sorted(#[trigger] l[a].1)
    &&& forall|a: int, f: Seq<char>| 0 <= a < l.len() ==> (#[trigger] l[a].1.contains(f) <==> placed_sig(places, sigs, k, l[a].0, f))
}

/// `r` lays out the functions `sigs` placed at `places`: each group used
/// once, increasing, each laid out as `is_group_layout` says.
pub open spec fn is_layout(r: Seq<(i32, Seq<(i32, Seq<Seq<char>>)>)>, sigs: Seq<Seq<char>>, places: Seq<(i32, i32)>) -> bool {
    &&& strictly_increasing(layout_keys(r))
    &&& forall|k: i32| #[trigger] layout_keys(r).contains(k) <==> group_keys(places).contains(k)
    &&& forall|i: int| 0 <= i < r.len() ==> is_group_layout(#[trigger] r[i].1, r[i].0, sigs, places)
}

/// The view of a group's layout.
pub open spec fn group_layout_view(l: Seq<(i32, Vec<String>)>) -> Seq<(i32, Seq<Seq<char>>)> {
    l.map_values(|x: (i32, Vec<String>)| (x.0, strings_view(x.1@)))
}

/// The view of a layout.
pub open spec fn layout_view(r: Seq<(i32, Vec<(i32, Vec<String>)>)>) -> Seq<(i32, Seq<(i32, Seq<Seq<char>>)>)> {
    r.map_values(|x: (i32, Vec<(i32, Vec<String>)>)| (x.0, group_layout_view(x.1@)))
}

/// The orders used in group `k`.
fn orders_in_group(places: &Vec<(i32, i32)>, k: i32) -> (v: Vec<i32>)
    ensures
        forall|o: i32| #[trigger] v@.contains(o) <==> has_place(places@, k, o),
{
    let mut v: Vec<i32> = Vec::new();
    let n = places.len();
    for e in 0..n
        invariant
            n == places@.len(),
            forall|o: i32| #[trigger] v@.contains(o) <==> (exists|d: int| 0 <= d < e && places@[d] == (k, o)),
    {
        let (g, o) = places[e];
        if g == k {
            let ghost before = v@;
            v.push(o);
            assert forall|x: i32| #[trigger] v@.contains(x) <==> (exists|d: int| 0 <= d < e + 1 && places@[d] == (k, x)) by {
                if v@.contains(x) {
                    let j = choose|j: int| 0 <= j < v@.len() && v@[j] == x;
                    if j < before.len() {
                        assert(before[j] == x);
                        assert(before.contains(x));
                    } else {
                        assert(places@[e as int] == (k, x));
                    }
                }
                if exists|d: int| 0 <= d < e + 1 && places@[d] == (k, x) {
                    let d = choose|d: int| 0 <= d < e + 1 && places@[d] == (k, x);
                    if d < e {
                        assert(before.contains(x));
                        let j = choose|j: int| 0 <= j < before.len() && before[j] == x;
                        assert(v@[j] == x);
                    } else {
                        assert(v@[before.len() as int] == x);
                    }
                }
            }
        } else {
            assert forall|x: i32| #[trigger] v@.contains(x) <==> (exists|d: int| 0 <= d < e + 1 && places@[d] == (k, x)) by {
                if exists|d: int| 0 <= d < e + 1 && places@[d] == (k, x) {
                    let d = choose|d: int| 0 <= d < e + 1 && places@[d] == (k, x);
                    assert(d < e);
                }
            }
        }
    }
    v
}

/// The functions placed at (`k`, `o`), in the order they are given.
fn funcs_placed_at(places: &Vec<(i32, i32)>, funcs: &Vec<String>, k: i32, o: i32) -> (v: Vec<String>)
    requires
        places@.len() == funcs@.len(),
    ensures
        forall|f: Seq<char>| #[trigger] strings_view(v@).contains(f) <==> placed_sig(places@, strings_view(funcs@), k, o, f),
{
    let ghost sigs = strings_view(funcs@);
    let mut v: Vec<String> = Vec::new();
    let n = places.len();
    for e in 0..n
        invariant
            n == places@.len(),
            n == funcs@.len(),
            sigs == strings_view(funcs@),
            forall|f: Seq<char>| #[trigger] strings_view(v@).contains(f)
                <==> (exists|d: int| 0 <= d < e && places@[d] == (k, o) && sigs[d] == f),
    {
        let (g, h) = places[e];
        if g == k && h == o {
            let ghost before = strings_view(v@);
            v.push(funcs[e].clone());
            let ghost after = strings_view(v@);
            assert(after =~= before.push(sigs[e as int]));
            assert forall|x: Seq<char>| #[trigger] after.contains(x)
                <==> (exists|d: int| 0 <= d < e + 1 && places@[d] == (k, o) && sigs[d] == x) by {
                if after.contains(x) {
                    let j = choose|j: int| 0 <= j < after.len() && after[j] == x;
                    if j < before.len() {
                        assert(before[j] == x);
                        assert(before.contains(x));
                    }
                }
                if exists|d: int| 0 <= d < e + 1 && places@[d] == (k, o) && sigs[d] == x {
                    let d = choose|d: int| 0 <= d < e + 1 && places@[d] == (k, o) && sigs[d] == x;
                    if d < e {
                        assert(before.contains(x));
                        let j = choose|j: int| 0 <= j < before.len() && before[j] == x;
                        assert(after[j] == x);
                    } else {
                        assert(after[before.len() as int] == x);
                    }
                }
            }
        } else {
            assert forall|x: Seq<char>| #[trigger] strings_view(v@).contains(x)
                <==> (exists|d: int| 0 <= d < e + 1 && places@[d] == (k, o) && sigs[d] == x) by {
                if exists|d: int| 0 <= d < e + 1 && places@[d] == (k, o) && sigs[d] == x {
                    let d = choose|d: int| 0 <= d < e + 1 && places@[d] == (k, o) && sigs[d] == x;
                    assert(d < e);
                }
            }
        }
    }
    v
}

/// Lays out `funcs`, each placed at the (group, order) pair of the same
/// index in `places` (see `is_layout`).
pub fn lay_out(funcs: &Vec<String>, places: &Vec<(i32, i32)>) -> (r: Vec<(i32, Vec<(i32, Vec<String>)>)>)
    requires
        funcs@.len() == places@.len(),
    ensures
        is_layout(layout_view(r@), strings_view(funcs@), places@),
{
    let ghost sigs = strings_view(funcs@);
    let mut all_groups: Vec<i32> = Vec::new();
    let n = places.len();
    for e in 0..n
        invariant
            n == places@.len(),
            all_groups@ == group_keys(places@).take(e as int),
    {
        all_groups.push(places[e].0);
        assert(group_keys(places@).take(e + 1) =~= group_keys(places@).take(e as int).push(places@[e as int].0));
    }
    assert(group_keys(places@).take(n as int) =~= group_keys(places@));
    let groups = sorted_keys(&all_groups);
    let mut r: Vec<(i32, Vec<(i32, Vec<String>)>)> = Vec::new();
    let m = groups.len();
    for gi in 0..m
        invariant
            m == groups@.len(),
            funcs@.len() == places@.len(),
            sigs == strings_view(funcs@),
            r@.len() == gi,
            forall|j: int| 0 <= j < gi ==> #[trigger] layout_view(r@)[j].0 == groups@[j],
            forall|j: int| 0 <= j < gi ==> is_group_layout(#[trigger] layout_view(r@)[j].1, groups@[j], sigs, places@),
    {
        let k = groups[gi];
        let orders = sorted_keys(&orders_in_group(places, k));
        let mut sets: Vec<(i32, Vec<String>)> = Vec::new();
        let p = orders.len();
        for oi in 0..p
            invariant
                p == orders@.len(),
                funcs@.len() == places@.len(),
                sigs == strings_view(funcs@),
                sets@.len() == oi,
                forall|a: int| 0 <= a < oi ==> #[trigger] group_layout_view(sets@)[a].0 == orders@[a],
                forall|a: int| 0 <= a < oi ==> lex_sorted(#[trigger] group_layout_view(sets@)[a].1),
                forall|a: int, f: Seq<char>| 0 <= a < oi ==> (#[trigger] group_layout_view(sets@)[a].1.contains(f)
                    <==> placed_sig(places@, sigs, k, orders@[a], f)),
        {
            let o = orders[oi];
            let fs = sorted_texts(&funcs_placed_at(places, funcs, k, o));
            let ghost before = group_layout_view(sets@);
            sets.push((o, fs));
            assert(group_layout_view(sets@) =~= before.push((o, strings_view(fs@))));
        }
        let ghost gl = group_layout_view(sets@);
        assert(order_keys(gl) =~= orders@);
        assert forall|a: int, f: Seq<char>| 0 <= a < gl.len() implies (#[trigger] gl[a].1.contains(f)
            <==> placed_sig(places@, sigs, k, gl[a].0, f)) by {}
        assert(is_group_layout(gl, k, sigs, places@));
        let ghost before = layout_view(r@);
        r.push((k, sets));
        assert(layout_view(r@) =~= before.push((k, gl)));
    }
    assert(layout_keys(layout_view(r@)) =~= groups@);
    r
}

/// Two strictly increasing sequences with the same elements are equal.
pub proof fn lemma_increasing_unique(a: Seq<i32>, b: Seq<i32>)
    requires
        strictly_increasing(a),
        strictly_increasing(b),
        forall|x: i32| a.contains(x) <==> b.contains(x),
    ensures
        a == b,
    decreases a.len() + b.len(),
{
    if a.len() == 0 || b.len() == 0 {
        if a.len() > 0 {
            assert(a.contains(a[0]));
        }
        if b.len() > 0 {
            assert(b.contains(b[0]));
        }
        assert(a =~= b);
    } else {
        assert(a.contains(a[0]));
        assert(b.contains(b[0]));
        let i = choose|i: int| 0 <= i < b.len() && b[i] == a[0];
        let j = choose|j: int| 0 <= j < a.len() && a[j] == b[0];
        assert(a[0] == b[0]) by {
            if i > 0 {
                assert(b[0] < b[i]);
                if j > 0 {
                    assert(a[0] < a[j]);
                }
            }
        }
        let ta = a.drop_first();
        let tb = b.drop_first();
        assert forall|x: i32| ta.contains(x) <==> tb.contains(x) by {
            if ta.contains(x) {
                let k = choose|k: int| 0 <= k < ta.len() && ta[k] == x;
                assert(a[k + 1] == x && a.contains(x));
                let m = choose|m: int| 0 <= m < b.len() && b[m] == x;
                assert(a[0] < a[k + 1]);
                assert(m != 0);
                assert(tb[m - 1] == x);
            }
            if tb.contains(x) {
                let k = choose|k: int| 0 <= k < tb.len() && tb[k] == x;
                assert(b[k + 1] == x && b.contains(x));
                let m = choose|m: int| 0 <= m < a.len() && a[m] == x;
                assert(b[0] < b[k + 1]);
                assert(m != 0);
                assert(ta[m - 1] == x);
            }
        }
        lemma_increasing_unique(ta, tb);
        assert(a =~= seq![a[0]] + ta);
        assert(b =~= seq![b[0]] + tb);
    }
}

/// Two lexicographically sorted sequences with the same elements are equal.
pub proof fn lemma_lex_sorted_unique(a: Seq<Seq<char>>, b: Seq<Seq<char>>)
    requires
        lex_sorted(a),
        lex_sorted(b),
        forall|x: Seq<char>| a.contains(x) <==> b.contains(x),
    ensures
        a == b,
    decreases a.len() + b.len(),
{
    if a.len() == 0 || b.len() == 0 {
        if a.len() > 0 {
            assert(a.contains(a[0]));
        }
        if b.len() > 0 {
            assert(b.contains(b[0]));
        }
        assert(a =~= b);
    } else {
        assert(a.contains(a[0]));
        assert(b.contains(b[0]));
        let i = choose|i: int| 0 <= i < b.len() && b[i] == a[0];
        let j = choose|j: int| 0 <= j < a.len() && a[j] == b[0];
        assert(a[0] == b[0]) by {
            if a[0] != b[0] {
                assert(i > 0 && j > 0);
                assert(lex_lt(b[0], b[i]));
                assert(lex_lt(a[0], a[j]));
                lemma_lex_transitive(a[0], b[0], a[0]);
                lemma_lex_irreflexive(a[0]);
            }
        }
        let ta = a.drop_first();
        let tb = b.drop_first();
        assert forall|x: Seq<char>| ta.contains(x) <==> tb.contains(x) by {
            if ta.contains(x) {
                let k = choose|k: int| 0 <= k < ta.len() && ta[k] == x;
                assert(a[k + 1] == x && a.contains(x));
                let m = choose|m: int| 0 <= m < b.len() && b[m] == x;
                assert(lex_lt(a[0], a[k + 1]));
                if m == 0 {
                    lemma_lex_irreflexive(x);
                }
                assert(tb[m - 1] == x);
            }
            if tb.contains(x) {
                let k = choose|k: int| 0 <= k < tb.len() && tb[k] == x;
                assert(b[k + 1] == x && b.contains(x));
                let m = choose|m: int| 0 <= m < a.len() && a[m] == x;
                assert(lex_lt(b[0], b[k + 1]));
                if m == 0 {
                    lemma_lex_irreflexive(x);
                }
                assert(ta[m - 1] == x);
            }
        }
        lemma_lex_sorted_unique(ta, tb);
        assert(a =~= seq![a[0]] + ta);
        assert(b =~= seq![b[0]] + tb);
    }
}

/// A group has at most one layout.
pub proof fn lemma_group_layout_unique(
    l1: Seq<(i32, Seq<Seq<char>>)>,
    l2: Seq<(i32, Seq<Seq<char>>)>,
    k: i32,
    sigs: Seq<Seq<char>>,
    places: Seq<(i32, i32)>,
)
    requires
        is_group_layout(l1, k, sigs, places),
        is_group_layout(l2, k, sigs, places),
    ensures
        l1 == l2,
{
    lemma_increasing_unique(order_keys(l1), order_keys(l2));
    assert(l1.len() == order_keys(l1).len());
    assert forall|a: int| 0 <= a < l1.len() implies l1[a] == l2[a] by {
        assert(order_keys(l1)[a] == l1[a].0);
        assert(order_keys(l2)[a] == l2[a].0);
        assert(lex_sorted(l1[a].1));
        assert(lex_sorted(l2[a].1));
        assert forall|f: Seq<char>| l1[a].1.contains(f) <==> l2[a].1.contains(f) by {
            assert(l1[a].1.contains(f) <==> placed_sig(places, sigs, k, l1[a].0, f));
            assert(l2[a].1.contains(f) <==> placed_sig(places, sigs, k, l2[a].0, f));
        }
        lemma_lex_sorted_unique(l1[a].1, l2[a].1);
    }
    assert(l1 =~= l2);
}

/// Functions have at most one layout: `is_layout` determines it.
pub proof fn lemma_layout_unique(
    r1: Seq<(i32, Seq<(i32, Seq<Seq<char>>)>)>,
    r2: Seq<(i32, Seq<(i32, Seq<Seq<char>>)>)>,
    sigs: Seq<Seq<char>>,
    places: Seq<(i32, i32)>,
)
    requires
        is_layout(r1, sigs, places),
        is_layout(r2, sigs, places),
    ensures
        r1 == r2,
{
    assert forall|k: i32| layout_keys(r1).contains(k) <==> layout_keys(r2).contains(k) by {
        assert(layout_keys(r1).contains(k) <==> group_keys(places).contains(k));
        assert(layout_keys(r2).contains(k) <==> group_keys(places).contains(k));
    }
    lemma_increasing_unique(layout_keys(r1), layout_keys(r2));
    assert(r1.len() == layout_keys(r1).len());
    assert forall|i: int| 0 <= i < r1.len() implies r1[i] == r2[i] by {
        assert(layout_keys(r1)[i] == r1[i].0);
        assert(layout_keys(r2)[i] == r2[i].0);
        lemma_group_layout_unique(r1[i].1, r2[i].1, r1[i].0, sigs, places);
    }
    assert(r1 =~= r2);
}

/// The layout of `sigs` placed at `places` (there is at most one).
pub open spec fn layout_of(sigs: Seq<Seq<char>>, places: Seq<(i32, i32)>) -> Seq<(i32, Seq<(i32, Seq<Seq<char>>)>)> {
    choose|r: Seq<(i32, Seq<(i32, Seq<Seq<char>>)>)>| is_layout(r, sigs, places)
}

/// A layout is the layout.
pub proof fn lemma_layout_of(r: Seq<(i32, Seq<(i32, Seq<Seq<char>>)>)>, sigs: Seq<Seq<char>>, places: Seq<(i32, i32)>)
    requires
        is_layout(r, sigs, places),
    ensures
        layout_of(sigs, places) == r,
{
    lemma_layout_unique(layout_of(sigs, places), r, sigs, places);
}

} // verus!
