//! Orders used to lay functions out: numeric keys, and the lexicographic
//! order of texts by character code (the order of `String`'s `Ord`).

use vstd::prelude::*;
use crate::text::strings_view;

verus! {

/// `a` comes strictly before `b`, comparing character codes from the left
/// and putting a proper prefix first.
pub open spec fn lex_lt(a: Seq<char>, b: Seq<char>) -> bool
    decreases a.len(),
{
    if a.len() == 0 {
        b.len() > 0
    } else if b.len() == 0 {
        false
    } else if a[0] != b[0] {
        (a[0] as int) < (b[0] as int)
    } else {
        lex_lt(a.drop_first(), b.drop_first())
    }
}

/// No text comes before itself.
pub proof fn lemma_lex_irreflexive(a: Seq<char>)
    ensures
        !lex_lt(a, a),
    decreases a.len(),
{
    if a.len() > 0 {
        lemma_lex_irreflexive(a.drop_first());
    }
}

/// The order is transitive.
pub proof fn lemma_lex_transitive(a: Seq<char>, b: Seq<char>, c: Seq<char>)
    requires
        lex_lt(a, b),
        lex_lt(b, c),
    ensures
        lex_lt(a, c),
    decreases a.len(),
{
    if a.len() > 0 && b.len() > 0 && c.len() > 0 {
        if a[0] == b[0] && b[0] == c[0] {
            lemma_lex_transitive(a.drop_first(), b.drop_first(), c.drop_first());
        }
    }
}

/// Of two different texts, one comes before the other.
pub proof fn lemma_lex_total(a: Seq<char>, b: Seq<char>)
    requires
        a != b,
    ensures
        lex_lt(a, b) || lex_lt(b, a),
    decreases a.len(),
{
    if a.len() > 0 && b.len() > 0 {
        if a[0] == b[0] {
            if a.drop_first() == b.drop_first() {
                assert(a =~= seq![a[0]] + a.drop_first());
                assert(b =~= seq![b[0]] + b.drop_first());
            }
            lemma_lex_total(a.drop_first(), b.drop_first());
        } else {
            assert((a[0] as int) != (b[0] as int));
        }
    } else if a.len() == 0 && b.len() == 0 {
        assert(a =~= b);
    }
}

/// Whether `a` comes strictly before `b` (see `lex_lt`).
pub fn lex_less(a: &[char], b: &[char]) -> (r: bool)
    ensures
        r == lex_lt(a@, b@),
{
    let mut i: usize = 0;
    assert(a@.skip(0) == a@ && b@.skip(0) == b@);
    while i < a.len() && i < b.len()
        invariant
            i <= a@.len(),
            i <= b@.len(),
            lex_lt(a@, b@) == lex_lt(a@.skip(i as int), b@.skip(i as int)),
        decreases a@.len() - i,
    {
        assert(a@.skip(i as int)[0] == a@[i as int]);
        assert(b@.skip(i as int)[0] == b@[i as int]);
        if a[i] != b[i] {
            return a[i] < b[i];
        }
        assert(a@.skip(i as int).drop_first() == a@.skip(i + 1));
        assert(b@.skip(i as int).drop_first() == b@.skip(i + 1));
        i = i + 1;
    }
    i == a.len() && i < b.len()
}

/// What one more element of a prefix adds to its contents.
pub proof fn lemma_take_next_contains<A>(s: Seq<A>, i: int)
    requires
        0 <= i < s.len(),
    ensures
        forall|x: A| #[trigger] s.take(i + 1).contains(x) <==> (s.take(i).contains(x) || x == s[i]),
{
    let t = s.take(i + 1);
    let u = s.take(i);
    assert(t =~= u.push(s[i]));
    assert forall|x: A| #[trigger] t.contains(x) <==> (u.contains(x) || x == s[i]) by {
        if t.contains(x) {
            let k = choose|k: int| 0 <= k < t.len() && t[k] == x;
            if k < i {
                assert(u[k] == x);
            }
        }
        if u.contains(x) {
            let k = choose|k: int| 0 <= k < u.len() && u[k] == x;
            assert(t[k] == x);
        }
        if x == s[i] {
            assert(t[i] == x);
        }
    }
}

/// Keys in strictly increasing order.
pub open spec fn strictly_increasing(v: Seq<i32>) -> bool {
    forall|i: int, j: int| 0 <= i < j < v.len() ==> v[i] < v[j]
}

/// Texts in strictly increasing lexicographic order.
pub open spec fn lex_sorted(v: Seq<Seq<char>>) -> bool {
    forall|i: int, j: int| 0 <= i < j < v.len() ==> lex_lt(v[i], v[j])
}

/// Texts in strictly increasing order are distinct.
pub proof fn lemma_lex_sorted_no_duplicates(v: Seq<Seq<char>>)
    requires
        lex_sorted(v),
    ensures
        v.no_duplicates(),
{
    assert forall|i: int, j: int| 0 <= i < v.len() && 0 <= j < v.len() && i != j implies v[i] != v[j] by {
        lemma_lex_irreflexive(v[i]);
        if i < j {
            assert(lex_lt(v[i], v[j]));
        } else {
            assert(lex_lt(v[j], v[i]));
        }
    }
}

/// Adds `x` to a strictly increasing vector, in its place, unless present.
fn insert_key(r: &mut Vec<i32>, x: i32)
    requires
        strictly_increasing(old(r)@),
    ensures
        strictly_increasing(final(r)@),
        forall|y: i32| #[trigger] final(r)@.contains(y) <==> (old(r)@.contains(y) || y == x),
{
    let mut q: usize = 0;
    while q < r.len() && r[q] < x
        invariant
            q <= r@.len(),
            forall|j: int| 0 <= j < q ==> r@[j] < x,
        decreases r@.len() - q,
    {
        q = q + 1;
    }
    if q < r.len() && r[q] == x {
        assert(r@.contains(x));
        return;
    }
    let ghost before = r@;
    r.insert(q, x);
    assert forall|i: int, j: int| 0 <= i < j < r@.len() implies r@[i] < r@[j] by {
        if j > q as int {
            assert(r@[j] == before[j - 1]);
            assert(before[q as int] > x);
        }
    }
    assert(before == old(r)@);
    assert forall|y: i32| #[trigger] r@.contains(y) <==> (before.contains(y) || y == x) by {
        if r@.contains(y) {
            let k = choose|k: int| 0 <= k < r@.len() && r@[k] == y;
            if k < q as int {
                assert(before[k] == y);
            } else if k > q as int {
                assert(before[k - 1] == y);
            }
        }
        if before.contains(y) {
            let k = choose|k: int| 0 <= k < before.len() && before[k] == y;
            if k < q as int {
                assert(r@[k] == y);
            } else {
                assert(r@[k + 1] == y);
            }
        }
        if y == x {
            assert(r@[q as int] == x);
        }
    }
}

/// The distinct values of `keys`, in increasing order.
pub fn sorted_keys(keys: &Vec<i32>) -> (r: Vec<i32>)
    ensures
        strictly_increasing(r@),
        forall|x: i32| r@.contains(x) <==> keys@.contains(x),
{
    let mut r: Vec<i32> = Vec::new();
    let n = keys.len();
    for i in 0..n
        invariant
            n == keys@.len(),
            strictly_increasing(r@),
            forall|x: i32| r@.contains(x) <==> keys@.take(i as int).contains(x),
    {
        insert_key(&mut r, keys[i]);
        proof { lemma_take_next_contains(keys@, i as int); }
    }
    assert(keys@.take(n as int) == keys@);
    r
}

/// Adds the text `x` to a lexicographically sorted vector, in its place,
/// unless a text equal to it is present.
fn insert_text(r: &mut Vec<String>, x: String)
    requires
        lex_sorted(strings_view(old(r)@)),
    ensures
        lex_sorted(strings_view(final(r)@)),
        forall|y: Seq<char>| strings_view(final(r)@).contains(y)
            <==> (strings_view(old(r)@).contains(y) || y == x@),
{
    let ghost xv = x@;
    let xc = crate::text::chars_of(x.as_str());
    let mut q: usize = 0;
    while q < r.len() && lex_less(crate::text::chars_of(r[q].as_str()).as_slice(), xc.as_slice())
        invariant
            q <= r@.len(),
            xc@ == xv,
            forall|j: int| 0 <= j < q ==> lex_lt(r@[j]@, xv),
        decreases r@.len() - q,
    {
        q = q + 1;
    }
    let ghost before = strings_view(r@);
    if q < r.len() && crate::text::str_eq(r[q].as_str(), x.as_str()) {
        assert(before[q as int] == xv);
        assert(before.contains(xv));
        return;
    }
    if q < r.len() {
        proof {
            lemma_lex_total(before[q as int], xv);
        }
    }
    r.insert(q, x);
    let ghost after = strings_view(r@);
    assert(after =~= before.insert(q as int, xv));
    assert forall|i: int, j: int| 0 <= i < j < after.len() implies lex_lt(after[i], after[j]) by {
        if i == q as int {
            assert(after[j] == before[j - 1]);
            if j - 1 > q as int {
                lemma_lex_transitive(xv, before[q as int], before[j - 1]);
            }
        } else if j == q as int {
            assert(after[i] == before[i]);
        } else if i < q as int && j > q as int {
            assert(after[i] == before[i]);
            assert(after[j] == before[j - 1]);
        } else if i > q as int {
            assert(after[i] == before[i - 1]);
            assert(after[j] == before[j - 1]);
        }
    }
    assert forall|y: Seq<char>| after.contains(y) <==> (before.contains(y) || y == xv) by {
        if after.contains(y) {
            let k = choose|k: int| 0 <= k < after.len() && after[k] == y;
            if k < q as int {
                assert(before[k] == y);
            } else if k > q as int {
                assert(before[k - 1] == y);
            }
        }
        if before.contains(y) {
            let k = choose|k: int| 0 <= k < before.len() && before[k] == y;
            if k < q as int {
                assert(after[k] == y);
            } else {
                assert(after[k + 1] == y);
            }
        }
        if y == xv {
            assert(after[q as int] == xv);
        }
    }
}

/// The distinct texts of `texts`, in lexicographic order.
pub fn sorted_texts(texts: &Vec<String>) -> (r: Vec<String>)
    ensures
        lex_sorted(strings_view(r@)),
        forall|x: Seq<char>| strings_view(r@).contains(x) <==> strings_view(texts@).contains(x),
{
    let mut r: Vec<String> = Vec::new();
    let n = texts.len();
    let ghost all = strings_view(texts@);
    for i in 0..n
        invariant
            n == texts@.len(),
            all == strings_view(texts@),
            lex_sorted(strings_view(r@)),
            forall|x: Seq<char>| strings_view(r@).contains(x) <==> all.take(i as int).contains(x),
    {
        insert_text(&mut r, texts[i].clone());
        proof { lemma_take_next_contains(all, i as int); }
    }
    assert(all.take(n as int) == all);
    r
}

} // verus!
