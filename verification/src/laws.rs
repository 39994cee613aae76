//! Properties that hold across the operations of the generator.

use vstd::prelude::*;
use crate::layout::{group_keys, has_place, is_layout, layout_keys, order_keys, placed_sig};
use crate::logic::{classes_after_add, key_position, keys_of, lemma_position_of, lookup, position_of};
use crate::logic::{guess_declaration, slot_in_tables, tables_fit, vtable_slot};
use crate::logic::{
    broma_text, class_block, class_placements, declaration_line, group_lines, group_of, join, join_all, layout_lines,
    lemma_join_all_part, placements, set_lines, Group,
};
use crate::layout::layout_of;
use crate::writer::{broma_prologue, class_closing, class_opening};
use crate::order::{lemma_lex_irreflexive, lex_sorted};
use crate::parsing_logic::{comments_out, kept_symbol_lines, lines_from, lines_of, old_keeps, strip_cr};
use crate::re::{apply_rewrites, rewrite, CLEANUP_RULES};
use crate::matching::regex_replace_all_result;
use crate::old_versions::pure_virtuals;
use crate::text::{contains_seq, lemma_contains_parts, lemma_contains_trans, lemma_find_char, starts_with, tail_from};

verus! {

/// Adding a function to a class appends it to that class's functions (a
/// class without functions getting just this one) and leaves every other
/// class as it was.
pub proof fn law_add_func_to_class(
    classes: Seq<(Seq<char>, Seq<Seq<char>>)>,
    class_name: Seq<char>,
    func_sig: Seq<char>,
    other: Seq<char>,
)
    ensures
        lookup(classes_after_add(classes, class_name, func_sig), class_name) == Some(
            match lookup(classes, class_name) {
                Some(fs) => fs.push(func_sig),
                None => seq![func_sig],
            },
        ),
        other != class_name ==> lookup(classes_after_add(classes, class_name, func_sig), other) == lookup(classes, other),
{
    let after = classes_after_add(classes, class_name, func_sig);
    lemma_position_of(keys_of(classes), class_name);
    lemma_position_of(keys_of(classes), other);
    lemma_position_of(keys_of(after), class_name);
    lemma_position_of(keys_of(after), other);
    match key_position(classes, class_name) {
        Some(i) => {
            assert(keys_of(after) =~= keys_of(classes));
        },
        None => {
            assert(keys_of(after) =~= keys_of(classes).push(class_name));
            assert(keys_of(after)[classes.len() as int] == class_name);
            if key_position(after, class_name) != Some(classes.len() as int) {
                assert(after[classes.len() as int].0 == class_name);
            }
            if other != class_name {
                match key_position(classes, other) {
                    Some(j) => {
                        assert(keys_of(after)[j] == other);
                    },
                    None => {},
                }
            }
        },
    }
}

/// Adding a function never gives a class a second entry: the class names
/// stay distinct.
pub proof fn law_add_func_keeps_classes_distinct(
    classes: Seq<(Seq<char>, Seq<Seq<char>>)>,
    class_name: Seq<char>,
    func_sig: Seq<char>,
)
    requires
        keys_of(classes).no_duplicates(),
    ensures
        keys_of(classes_after_add(classes, class_name, func_sig)).no_duplicates(),
{
    let after = classes_after_add(classes, class_name, func_sig);
    lemma_position_of(keys_of(classes), class_name);
    match key_position(classes, class_name) {
        Some(i) => {
            assert(keys_of(after) =~= keys_of(classes));
        },
        None => {
            assert(keys_of(after) =~= keys_of(classes).push(class_name));
        },
    }
}

/// Function `f` is listed in the layout `r` under group `k` and order `o`.
pub open spec fn listed_in(r: Seq<(i32, Seq<(i32, Seq<Seq<char>>)>)>, k: i32, o: i32, f: Seq<char>) -> bool {
    exists|i: int, a: int| {
        &&& 0 <= i < r.len()
        &&& 0 <= a < r[i].1.len()
        &&& r[i].0 == k
        &&& r[i].1[a].0 == o
        &&& #[trigger] r[i].1[a].1.contains(f)
    }
}

/// Where function `e` is listed in a layout.
proof fn lemma_function_listed(
    r: Seq<(i32, Seq<(i32, Seq<Seq<char>>)>)>,
    sigs: Seq<Seq<char>>,
    places: Seq<(i32, i32)>,
    e: int,
) -> (ia: (int, int))
    requires
        is_layout(r, sigs, places),
        sigs.len() == places.len(),
        0 <= e < sigs.len(),
    ensures
        0 <= ia.0 < r.len(),
        0 <= ia.1 < r[ia.0].1.len(),
        r[ia.0].0 == places[e].0,
        r[ia.0].1[ia.1].0 == places[e].1,
        r[ia.0].1[ia.1].1.contains(sigs[e]),
{
    let k = places[e].0;
    let o = places[e].1;
    assert(group_keys(places)[e] == k);
    assert(group_keys(places).contains(k));
    assert(layout_keys(r).contains(k));
    let i = choose|i: int| 0 <= i < layout_keys(r).len() && layout_keys(r)[i] == k;
    assert(r[i].0 == k);
    assert(places[e] == (k, o));
    assert(has_place(places, k, o));
    assert(order_keys(r[i].1).contains(o));
    let a = choose|a: int| 0 <= a < order_keys(r[i].1).len() && order_keys(r[i].1)[a] == o;
    assert(r[i].1[a].0 == o);
    assert(placed_sig(places, sigs, k, o, sigs[e]));
    assert(r[i].1[a].1.contains(sigs[e]));
    (i, a)
}

/// The layout of a class's functions partitions them: each function is
/// listed in the set of the group and order it was placed at, every listed
/// function was placed there, and no set lists a function twice.
pub proof fn law_layout_partitions_functions(
    r: Seq<(i32, Seq<(i32, Seq<Seq<char>>)>)>,
    sigs: Seq<Seq<char>>,
    places: Seq<(i32, i32)>,
)
    requires
        is_layout(r, sigs, places),
        sigs.len() == places.len(),
    ensures
        forall|e: int| 0 <= e < sigs.len() ==> listed_in(r, places[e].0, places[e].1, #[trigger] sigs[e]),
        forall|i: int, a: int, f: Seq<char>| 0 <= i < r.len() && 0 <= a < r[i].1.len() && #[trigger] r[i].1[a].1.contains(f)
            ==> exists|e: int| 0 <= e < sigs.len() && places[e] == (r[i].0, r[i].1[a].0) && sigs[e] == f,
        forall|i: int, a: int| 0 <= i < r.len() && 0 <= a < r[i].1.len() ==> (#[trigger] r[i].1[a].1).no_duplicates(),
{
    assert forall|e: int| 0 <= e < sigs.len() implies listed_in(r, places[e].0, places[e].1, #[trigger] sigs[e]) by {
        let (i, a) = lemma_function_listed(r, sigs, places, e);
    }
    assert forall|i: int, a: int, f: Seq<char>| 0 <= i < r.len() && 0 <= a < r[i].1.len() && #[trigger] r[i].1[a].1.contains(f)
        implies exists|e: int| 0 <= e < sigs.len() && places[e] == (r[i].0, r[i].1[a].0) && sigs[e] == f by {
        assert(placed_sig(places, sigs, r[i].0, r[i].1[a].0, f));
    }
    assert forall|i: int, a: int| 0 <= i < r.len() && 0 <= a < r[i].1.len() implies (#[trigger] r[i].1[a].1).no_duplicates() by {
        let fs = r[i].1[a].1;
        assert(lex_sorted(fs));
        assert forall|x: int, y: int| 0 <= x < fs.len() && 0 <= y < fs.len() && x != y implies fs[x] != fs[y] by {
            if x < y {
                assert(crate::order::lex_lt(fs[x], fs[y]));
            } else {
                assert(crate::order::lex_lt(fs[y], fs[x]));
            }
            lemma_lex_irreflexive(fs[x]);
        }
    }
}

/// One place per function.
proof fn lemma_placements_len(groups: Seq<Group>)
    ensures
        placements(groups).len() == groups.len(),
    decreases groups.len(),
{
    if groups.len() > 0 {
        lemma_placements_len(groups.drop_last());
    }
}

/// The block of class `name` holds the declaration line of function `f`.
pub open spec fn block_declares(
    classes: Seq<(Seq<char>, Seq<Seq<char>>)>,
    vtables: Seq<(Seq<char>, Seq<Seq<Seq<char>>>)>,
    name: Seq<char>,
    funcs: Seq<Seq<char>>,
    f: Seq<char>,
) -> bool {
    &&& class_block(classes, vtables, name, funcs) matches Some(b)
    &&& declaration_line(classes, vtables, name, f) matches Some(line)
    &&& contains_seq(b, line)
}

/// Where the block of a class is written, it holds a declaration line for
/// each of the class's functions (see `declaration_line`), whatever group
/// and order the function was placed at.
pub proof fn law_block_declares_each_function(
    classes: Seq<(Seq<char>, Seq<Seq<char>>)>,
    vtables: Seq<(Seq<char>, Seq<Seq<Seq<char>>>)>,
    name: Seq<char>,
    funcs: Seq<Seq<char>>,
    e: int,
)
    requires
        is_layout(layout_of(funcs, class_placements(vtables, name, funcs)), funcs, class_placements(vtables, name, funcs)),
        class_block(classes, vtables, name, funcs) is Some,
        0 <= e < funcs.len(),
    ensures
        block_declares(classes, vtables, name, funcs, funcs[e]),
{
    let places = class_placements(vtables, name, funcs);
    let r = layout_of(funcs, places);
    lemma_placements_len(funcs.map_values(|f: Seq<char>| group_of(name, f, vtable_slot(vtables, name, f))));
    let (ia, ib) = lemma_function_listed(r, funcs, places, e);
    let t = layout_lines(classes, vtables, name, r).unwrap();
    let b = class_block(classes, vtables, name, funcs).unwrap();
    assert(b == class_opening(name) + t + class_closing());
    lemma_contains_parts(class_opening(name) + t, class_closing());
    lemma_contains_parts(class_opening(name), t);
    lemma_contains_trans(b, class_opening(name) + t, t);
    let gparts = r.map_values(|g: (i32, Seq<(i32, Seq<Seq<char>>)>)| group_lines(classes, vtables, name, g.1));
    lemma_join_all_part(gparts, t, ia);
    let g = group_lines(classes, vtables, name, r[ia].1).unwrap();
    let oparts = r[ia].1.map_values(
        |x: (i32, Seq<Seq<char>>)| join(set_lines(classes, vtables, name, x.1), Some("\n"@)),
    );
    lemma_join_all_part(oparts, g, ib);
    let fs = r[ia].1[ib].1;
    let sl = set_lines(classes, vtables, name, fs).unwrap();
    lemma_contains_parts(sl, "\n"@);
    lemma_contains_trans(g, sl + "\n"@, sl);
    let k = choose|k: int| 0 <= k < fs.len() && fs[k] == funcs[e];
    let dparts = fs.map_values(|f: Seq<char>| declaration_line(classes, vtables, name, f));
    lemma_join_all_part(dparts, sl, k);
    let line = declaration_line(classes, vtables, name, funcs[e]).unwrap();
    lemma_contains_trans(t, g, sl);
    lemma_contains_trans(t, sl, line);
    lemma_contains_trans(b, t, line);
}

/// A written broma text starts with the prologue and holds the block of
/// every class.
pub proof fn law_broma_text_holds_blocks(
    classes: Seq<(Seq<char>, Seq<Seq<char>>)>,
    vtables: Seq<(Seq<char>, Seq<Seq<Seq<char>>>)>,
    code: Seq<char>,
    k: int,
)
    requires
        broma_text(classes, vtables, classes) == Some(code),
        0 <= k < classes.len(),
    ensures
        starts_with(code, broma_prologue()),
        class_block(classes, vtables, classes[k].0, classes[k].1) matches Some(b) && contains_seq(code, b),
{
    let parts = classes.map_values(
        |c: (Seq<char>, Seq<Seq<char>>)| class_block(classes, vtables, c.0, c.1),
    );
    let rest = join_all(parts).unwrap();
    assert(code == broma_prologue() + rest);
    assert(code.subrange(0, broma_prologue().len() as int) =~= broma_prologue());
    lemma_join_all_part(parts, rest, k);
    lemma_contains_parts(broma_prologue(), rest);
    lemma_contains_trans(code, rest, class_block(classes, vtables, classes[k].0, classes[k].1).unwrap());
}

/// Where `slot_in_tables` finds a slot, the signature stands there in
/// one of the tables.
proof fn lemma_slot_in_tables_sound(tables: Seq<Seq<Seq<char>>>, sig: Seq<char>)
    ensures
        slot_in_tables(tables, sig) matches Some(i) ==> exists|t: int| 0 <= t < tables.len() && 0 <= i < tables[t].len() && tables[t][i] == sig,
    decreases tables.len(),
{
    if tables.len() > 0 {
        lemma_position_of(tables[0], sig);
        lemma_slot_in_tables_sound(tables.drop_first(), sig);
        if let Some(i) = slot_in_tables(tables, sig) {
            if position_of(tables[0], sig) is None {
                let t = choose|t: int| 0 <= t < tables.len() - 1 && 0 <= i < tables.drop_first()[t].len() && tables.drop_first()[t][i] == sig;
                assert(tables[t + 1][i] == sig);
            }
        }
    }
}

/// A vtable slot is where the function stands in one of its class's
/// tables (for vtables whose slots fit in `i32`, as those of
/// `OldSignatureResults` do).
pub proof fn law_vtable_slot_sound(
    vtables: Seq<(Seq<char>, Seq<Seq<Seq<char>>>)>,
    name: Seq<char>,
    func_sig: Seq<char>,
)
    requires
        tables_fit(vtables),
        vtable_slot(vtables, name, func_sig) is Some,
    ensures
        lookup(vtables, name) matches Some(tables) && exists|t: int, i: int| {
            &&& 0 <= t < tables.len()
            &&& 0 <= i < tables[t].len()
            &&& i == vtable_slot(vtables, name, func_sig)->Some_0
            &&& #[trigger] tables[t][i] == func_sig
        },
{
    lemma_position_of(keys_of(vtables), name);
    let p = key_position(vtables, name)->Some_0;
    let tables = vtables[p].1;
    lemma_slot_in_tables_sound(tables, func_sig);
    let i = slot_in_tables(tables, func_sig)->Some_0;
    let t = choose|t: int| 0 <= t < tables.len() && 0 <= i < tables[t].len() && tables[t][i] == func_sig;
    assert(tables[t].len() <= i32::MAX);
    assert(i == (i as i32) as int);
}

/// Lines built from text without line breaks have none.
proof fn lemma_lines_from_no_break(s: Seq<char>, cur: Seq<char>)
    requires
        !cur.contains('\n'),
    ensures
        forall|i: int| 0 <= i < lines_from(s, cur).len() ==> !(#[trigger] lines_from(s, cur)[i]).contains('\n'),
    decreases s.len(),
{
    if s.len() == 0 {
        if cur.len() > 0 {
            assert(lines_from(s, cur) == seq![cur]);
            assert(lines_from(s, cur)[0] == cur);
        }
    } else if s[0] == '\n' {
        let first = strip_cr(cur);
        assert(!first.contains('\n')) by {
            if first.contains('\n') {
                let k = choose|k: int| 0 <= k < first.len() && first[k] == '\n';
                assert(cur[k] == '\n');
            }
        }
        lemma_lines_from_no_break(s.drop_first(), Seq::empty());
        let rest = lines_from(s.drop_first(), Seq::empty());
        assert forall|i: int| 0 <= i < lines_from(s, cur).len() implies !(#[trigger] lines_from(s, cur)[i]).contains('\n') by {
            assert(lines_from(s, cur) == seq![first] + rest);
            if i > 0 {
                assert(lines_from(s, cur)[i] == rest[i - 1]);
            } else {
                assert(lines_from(s, cur)[i] == first);
            }
        }
    } else {
        let next = cur.push(s[0]);
        assert(!next.contains('\n')) by {
            if next.contains('\n') {
                let k = choose|k: int| 0 <= k < next.len() && next[k] == '\n';
                if k < cur.len() {
                    assert(cur[k] == '\n');
                }
            }
        }
        lemma_lines_from_no_break(s.drop_first(), next);
        assert(lines_from(s, cur) == lines_from(s.drop_first(), next));
    }
}

/// No line of a text contains a line break.
pub proof fn law_lines_have_no_line_break(s: Seq<char>)
    ensures
        forall|i: int| 0 <= i < lines_of(s).len() ==> !(#[trigger] lines_of(s)[i]).contains('\n'),
{
    lemma_lines_from_no_break(s, Seq::empty());
}

/// The pure virtual placeholders of a list of signatures are exactly its
/// signatures that start with `pure_virtual_`, each once.
pub proof fn law_pure_virtuals(sigs: Seq<Seq<char>>)
    ensures
        pure_virtuals(sigs).no_duplicates(),
        forall|x: Seq<char>| #[trigger] pure_virtuals(sigs).contains(x)
            <==> (sigs.contains(x) && starts_with(x, "pure_virtual_"@)),
    decreases sigs.len(),
{
    if sigs.len() > 0 {
        let init = sigs.drop_last();
        let last = sigs.last();
        law_pure_virtuals(init);
        let prev = pure_virtuals(init);
        assert forall|x: Seq<char>| sigs.contains(x) <==> (init.contains(x) || x == last) by {
            if sigs.contains(x) {
                let k = choose|k: int| 0 <= k < sigs.len() && sigs[k] == x;
                if k < sigs.len() - 1 {
                    assert(init[k] == x);
                }
            }
            if init.contains(x) {
                let k = choose|k: int| 0 <= k < init.len() && init[k] == x;
                assert(sigs[k] == x);
            }
            if x == last {
                assert(sigs[sigs.len() - 1] == x);
            }
        }
        if starts_with(last, "pure_virtual_"@) && !prev.contains(last) {
            let now = prev.push(last);
            assert forall|x: Seq<char>| now.contains(x) <==> (prev.contains(x) || x == last) by {
                if now.contains(x) {
                    let k = choose|k: int| 0 <= k < now.len() && now[k] == x;
                    if k < prev.len() {
                        assert(prev[k] == x);
                    }
                }
                if prev.contains(x) {
                    let k = choose|k: int| 0 <= k < prev.len() && prev[k] == x;
                    assert(now[k] == x);
                }
                if x == last {
                    assert(now[prev.len() as int] == x);
                }
            }
            assert forall|a: int, b: int| 0 <= a < now.len() && 0 <= b < now.len() && a != b implies now[a] != now[b] by {
                if a == prev.len() as int {
                    assert(prev[b] == now[b]);
                } else if b == prev.len() as int {
                    assert(prev[a] == now[a]);
                }
            }
        }
    }
}


/// Two texts that differ in their first character share no prefix that
/// starts with one of them.
proof fn lemma_first_char_blocks_prefix(s: Seq<char>, p: Seq<char>)
    requires
        s.len() > 0,
        p.len() > 0,
        s[0] != p[0],
    ensures
        !starts_with(s, p),
{
    if starts_with(s, p) {
        assert(s.subrange(0, p.len() as int)[0] == s[0]);
    }
}

/// A function whose name starts with `init(` (and which is not a
/// constructor of a class named `init`) is declared as returning `bool`,
/// whatever its parameters and whatever the classes hold.
pub proof fn law_init_returns_bool(
    classes: Seq<(Seq<char>, Seq<Seq<char>>)>,
    class_name: Seq<char>,
    name: Seq<char>,
)
    requires
        starts_with(name, "init("@),
        !starts_with(name, class_name + "("@),
    ensures
        guess_declaration(classes, class_name, name) == Some("bool "@ + name),
{
    reveal_strlit("init(");
    reveal_strlit("~");
    reveal_strlit("create(");
    reveal_strlit("shared");
    reveal_strlit("ccTouchBegan(");
    reveal_strlit("ccTouchMoved(");
    reveal_strlit("ccTouchEnded(");
    reveal_strlit("ccTouchCancelled(");
    assert(name.subrange(0, 5)[0] == name[0]);
    assert(name[0] == 'i');
    lemma_first_char_blocks_prefix(name, "~"@);
    lemma_first_char_blocks_prefix(name, "create("@);
    lemma_first_char_blocks_prefix(name, "shared"@);
    lemma_first_char_blocks_prefix(name, "ccTouchBegan("@);
    lemma_first_char_blocks_prefix(name, "ccTouchMoved("@);
    lemma_first_char_blocks_prefix(name, "ccTouchEnded("@);
    lemma_first_char_blocks_prefix(name, "ccTouchCancelled("@);
}

/// The slot lookup is complete: where the signature stands at index `i`
/// of table `t`, not earlier in that table and in no earlier table, the
/// slot is `i`; where it stands in no table, there is no slot.
pub proof fn law_slot_in_tables_complete(tables: Seq<Seq<Seq<char>>>, sig: Seq<char>, t: int, i: int)
    requires
        0 <= t < tables.len(),
        0 <= i < tables[t].len(),
        tables[t][i] == sig,
        forall|j: int| 0 <= j < i ==> tables[t][j] != sig,
        forall|u: int| 0 <= u < t ==> !tables[u].contains(sig),
    ensures
        slot_in_tables(tables, sig) == Some(i),
    decreases t,
{
    lemma_position_of(tables[0], sig);
    if t == 0 {
    } else {
        if position_of(tables[0], sig) is Some {
            assert(tables[0].contains(sig));
        }
        law_slot_in_tables_complete(tables.drop_first(), sig, t - 1, i);
    }
}

/// Without the signature in any table, there is no slot.
pub proof fn law_slot_in_tables_absent(tables: Seq<Seq<Seq<char>>>, sig: Seq<char>)
    requires
        forall|u: int| 0 <= u < tables.len() ==> !tables[u].contains(sig),
    ensures
        slot_in_tables(tables, sig) is None,
    decreases tables.len(),
{
    if tables.len() > 0 {
        lemma_position_of(tables[0], sig);
        if position_of(tables[0], sig) is Some {
            assert(tables[0].contains(sig));
        }
        assert forall|u: int| 0 <= u < tables.len() - 1 implies !tables.drop_first()[u].contains(sig) by {
            assert(tables.drop_first()[u] == tables[u + 1]);
        }
        law_slot_in_tables_absent(tables.drop_first(), sig);
    }
}

/// The vtable slot of a function of a class is its index in the first of
/// the class's tables that holds it.
pub proof fn law_vtable_slot_complete(
    vtables: Seq<(Seq<char>, Seq<Seq<Seq<char>>>)>,
    name: Seq<char>,
    sig: Seq<char>,
    t: int,
    i: int,
)
    requires
        tables_fit(vtables),
        lookup(vtables, name) matches Some(tables) && {
            &&& 0 <= t < tables.len()
            &&& 0 <= i < tables[t].len()
            &&& tables[t][i] == sig
            &&& forall|j: int| 0 <= j < i ==> tables[t][j] != sig
            &&& forall|u: int| 0 <= u < t ==> !tables[u].contains(sig)
        },
    ensures
        vtable_slot(vtables, name, sig) == Some(i as i32),
{
    let tables = lookup(vtables, name).unwrap();
    lemma_position_of(keys_of(vtables), name);
    let k = key_position(vtables, name).unwrap();
    assert(vtables[k].1 == tables);
    assert(tables[t].len() <= i32::MAX);
    law_slot_in_tables_complete(tables, sig, t, i);
}


/// The symbols read from a listing are its lines, each cleaned by all the
/// rules of `CLEANUP_RULES` in order, keeping those `old_keeps` accepts:
/// every symbol is the cleaned form of a line, and no kept line is lost.
pub proof fn law_symbols_are_cleaned_lines(lines: Seq<Seq<char>>)
    ensures
        kept_symbol_lines(lines) == lines.map_values(|l: Seq<char>| apply_rewrites(l, CLEANUP_RULES@)).filter(
            |c: Seq<char>| old_keeps(c),
        ),
    decreases lines.len(),
{
    let cleaned = lines.map_values(|l: Seq<char>| apply_rewrites(l, CLEANUP_RULES@));
    if lines.len() > 0 {
        law_symbols_are_cleaned_lines(lines.drop_last());
        assert(cleaned.drop_last() =~= lines.drop_last().map_values(|l: Seq<char>| apply_rewrites(l, CLEANUP_RULES@)));
        assert(cleaned.last() == apply_rewrites(lines.last(), CLEANUP_RULES@));
        reveal(Seq::filter);
    } else {
        reveal(Seq::filter);
        assert(cleaned =~= Seq::<Seq<char>>::empty());
    }
}

/// A constructor that takes parameters is written as it is: for a class
/// without `:` in its name, not starting with `$` or `~`, a function named
/// after it whose parameter list is neither empty, variadic nor the copy
/// form `Class const&` is not commented out.
pub proof fn law_constructor_with_parameters_not_commented(class_name: Seq<char>, params: Seq<char>)
    requires
        forall|k: int| 0 <= k < class_name.len() ==> class_name[k] != ':',
        class_name.len() > 0 ==> class_name[0] != '$' && class_name[0] != '~',
        params.len() > 0,
        params[0] != ')',
        !contains_seq(class_name + "("@ + params + ")"@, "..."@),
        !starts_with(params + ")"@, class_name + " const&)"@),
    ensures
        !comments_out(class_name, class_name + "("@ + params + ")"@),
{
    reveal_strlit("(");
    reveal_strlit(")");
    reveal_strlit("()");
    reveal_strlit("$");
    reveal_strlit("($");
    reveal_strlit("~$");
    reveal_strlit("fmt::");
    reveal_strlit(" const&)");
    reveal_strlit("&&)");
    let name = class_name + "("@ + params + ")"@;
    let n: int = class_name.len() as int;
    lemma_find_char(class_name, ':');
    assert(tail_from(class_name, ':') == class_name);
    assert(name[n] == '(');
    assert(name[n + 1] == params[0]);
    // not the default constructor
    if starts_with(name, class_name + "()"@) {
        assert(name.subrange(0, n + 2)[n + 1] == (class_name + "()"@)[n + 1]);
    }
    // not the copy constructor
    let copy = class_name + "("@ + class_name + " const&)"@;
    if starts_with(name, copy) {
        assert forall|k: int| 0 <= k < (class_name + " const&)"@).len() implies (params + ")"@)[k] == (class_name + " const&)"@)[k] by {
            assert(name.subrange(0, copy.len() as int)[n + 1 + k] == copy[n + 1 + k]);
            assert(name[n + 1 + k] == (params + ")"@)[k]);
        }
        assert((params + ")"@).subrange(0, (class_name + " const&)"@).len() as int) =~= class_name + " const&)"@);
    }
    // not the move constructor nor the destructor placeholder
    if n > 0 {
        lemma_first_char_blocks_prefix(name, "$"@ + class_name + "($"@ + class_name + "&&)"@);
        lemma_first_char_blocks_prefix(name, "~$"@ + class_name);
    } else {
        lemma_first_char_blocks_prefix(name, "$"@ + class_name + "($"@ + class_name + "&&)"@);
        lemma_first_char_blocks_prefix(name, "~$"@ + class_name);
    }
    // not an `fmt::` helper: a `(` comes before any `:`
    if starts_with(name, "fmt::"@) {
        if n <= 3 {
            assert(name.subrange(0, 5)[n] == "fmt::"@[n]);
        } else {
            assert(name.subrange(0, 5)[3] == "fmt::"@[3]);
            assert(name[3] == class_name[3]);
        }
    }
}

/// Rules marked to apply everywhere replace every match of their pattern
/// (as `regex_replace_all` does), and every clean-up rule but the one for
/// `(void)` is so marked.
pub proof fn law_cleanup_rules_replace_all(text: Seq<char>, k: int)
    requires
        0 <= k < CLEANUP_RULES@.len(),
        k != 3,
    ensures
        CLEANUP_RULES@[k].2,
        rewrite(text, CLEANUP_RULES@[k]) == (match regex_replace_all_result(
            CLEANUP_RULES@[k].0@,
            text,
            CLEANUP_RULES@[k].1@,
        ) {
            Some(t) => t,
            None => text,
        }),
{
}


/// Two prefixes of one text agree wherever both are defined.
proof fn lemma_prefixes_agree(s: Seq<char>, p: Seq<char>, q: Seq<char>, k: int)
    requires
        starts_with(s, p),
        starts_with(s, q),
        0 <= k < p.len(),
        k < q.len(),
    ensures
        p[k] == q[k],
{
    assert(s.subrange(0, p.len() as int)[k] == s[k]);
    assert(s.subrange(0, q.len() as int)[k] == s[k]);
}

/// Constructors and destructors are declared by their name alone.
pub proof fn law_constructors_declared_as_named(
    classes: Seq<(Seq<char>, Seq<Seq<char>>)>,
    class_name: Seq<char>,
    name: Seq<char>,
)
    requires
        starts_with(name, class_name + "("@) || starts_with(name, "~"@),
    ensures
        guess_declaration(classes, class_name, name) == Some(name),
{
}

/// A `create(` factory returns a pointer to its class.
pub proof fn law_create_returns_class_pointer(
    classes: Seq<(Seq<char>, Seq<Seq<char>>)>,
    class_name: Seq<char>,
    name: Seq<char>,
)
    requires
        starts_with(name, "create("@),
        !starts_with(name, class_name + "("@),
    ensures
        guess_declaration(classes, class_name, name) == Some(class_name + "* "@ + name),
{
    reveal_strlit("create(");
    reveal_strlit("~");
    reveal_strlit("ccTouchBegan(");
    reveal_strlit("ccTouchMoved(");
    reveal_strlit("ccTouchEnded(");
    reveal_strlit("ccTouchCancelled(");
    if starts_with(name, "~"@) {
        lemma_prefixes_agree(name, "create("@, "~"@, 0);
    }
    if starts_with(name, "ccTouchBegan("@) {
        lemma_prefixes_agree(name, "create("@, "ccTouchBegan("@, 1);
    }
    if starts_with(name, "ccTouchMoved("@) {
        lemma_prefixes_agree(name, "create("@, "ccTouchMoved("@, 1);
    }
    if starts_with(name, "ccTouchEnded("@) {
        lemma_prefixes_agree(name, "create("@, "ccTouchEnded("@, 1);
    }
    if starts_with(name, "ccTouchCancelled("@) {
        lemma_prefixes_agree(name, "create("@, "ccTouchCancelled("@, 1);
    }
}

/// The default constructor, variadic functions and `fmt::` helpers are
/// written commented out (for a class without `:` in its name).
pub proof fn law_commented_out_forms(class_name: Seq<char>, name: Seq<char>)
    requires
        forall|k: int| 0 <= k < class_name.len() ==> class_name[k] != ':',
    ensures
        starts_with(name, class_name + "()"@) ==> comments_out(class_name, name),
        contains_seq(name, "..."@) ==> comments_out(class_name, name),
        starts_with(name, "fmt::"@) ==> comments_out(class_name, name),
{
    lemma_find_char(class_name, ':');
    assert(tail_from(class_name, ':') == class_name);
}

} // verus!
