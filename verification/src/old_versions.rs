//! Bindings for the releases without a Windows build (1.8 and older): the
//! classes are gathered from the Android symbols, the vtables of Ghidra are
//! attached, and every pure virtual placeholder is added to its class.

use vstd::prelude::*;
use vstd::string::StringExecFns;
use crate::logic::{classes_after_add, keys_of, tables_fit, vtables_view, OldSignatureResults, SignatureResults};
use crate::matching::{regex_captures, regex_captures_result, groups_view};
use crate::parsing_logic::{old_keeps, old_should_keep_symbol};
use crate::re::FILTER_FUNCTIONS;
use crate::text::{chars_of, ends_with, ends_with_exec, starts_with, starts_with_exec, str_eq, strings_view};

verus! {

/// The groups of a match that took part in it, in order.
pub open spec fn present_groups(groups: Seq<Option<Seq<char>>>) -> Seq<Seq<char>>
    decreases groups.len(),
{
    if groups.len() == 0 {
        Seq::empty()
    } else {
        let prev = present_groups(groups.drop_last());
        match groups.last() {
            Some(g) => prev.push(g),
            None => prev,
        }
    }
}

/// What a symbol contributes: `Some(Some((class, function)))` a function
/// of a class, `Some(None)` nothing, `None` a symbol on which no class can
/// be read. A symbol contributes when it is kept, `FILTER_FUNCTIONS`
/// matches it, its class part (group 1) does not end in `::`, and the
/// second present group is not `cocos2d`; the function is the third
/// present group.
pub open spec fn symbol_contribution(sym: Seq<char>) -> Option<Option<(Seq<char>, Seq<char>)>> {
    if !old_keeps(sym) {
        Some(None)
    } else {
        match regex_captures_result(FILTER_FUNCTIONS@, sym) {
            Some(Some(groups)) => {
                if groups.len() < 2 || groups[1] is None {
                    None
                } else if ends_with(groups[1]->Some_0, "::"@) {
                    Some(None)
                } else {
                    let present = present_groups(groups);
                    if present.len() < 2 || present[1] == "cocos2d"@ {
                        Some(None)
                    } else if present.len() < 3 {
                        None
                    } else {
                        Some(Some((present[1], present[2])))
                    }
                }
            },
            _ => Some(None),
        }
    }
}

/// The classes gathered from `syms`, in order, starting from `classes`.
pub open spec fn classes_from_symbols(
    classes: Seq<(Seq<char>, Seq<Seq<char>>)>,
    syms: Seq<Seq<char>>,
) -> Option<Seq<(Seq<char>, Seq<Seq<char>>)>>
    decreases syms.len(),
{
    if syms.len() == 0 {
        Some(classes)
    } else {
        match classes_from_symbols(classes, syms.drop_last()) {
            Some(cs) => match symbol_contribution(syms.last()) {
                Some(Some((c, f))) => Some(classes_after_add(cs, c, f)),
                Some(None) => Some(cs),
                None => None,
            },
            None => None,
        }
    }
}

/// A symbol without readable class leaves the whole listing without classes.
proof fn lemma_symbols_undefined(syms: Seq<Seq<char>>, k: int)
    requires
        0 <= k <= syms.len(),
        classes_from_symbols(Seq::empty(), syms.take(k)) is None,
    ensures
        classes_from_symbols(Seq::empty(), syms) is None,
    decreases syms.len() - k,
{
    if k < syms.len() {
        assert(syms.take(k + 1).drop_last() =~= syms.take(k));
        lemma_symbols_undefined(syms, k + 1);
    } else {
        assert(syms.take(k) =~= syms);
    }
}

/// The distinct `pure_virtual_` placeholders of `sigs`, in order of first
/// appearance.
pub open spec fn pure_virtuals(sigs: Seq<Seq<char>>) -> Seq<Seq<char>>
    decreases sigs.len(),
{
    if sigs.len() == 0 {
        Seq::empty()
    } else {
        let prev = pure_virtuals(sigs.drop_last());
        if starts_with(sigs.last(), "pure_virtual_"@) && !prev.contains(sigs.last()) {
            prev.push(sigs.last())
        } else {
            prev
        }
    }
}

/// All the signatures of a class's tables, table after table.
pub open spec fn table_sigs(tables: Seq<Seq<Seq<char>>>) -> Seq<Seq<char>>
    decreases tables.len(),
{
    if tables.len() == 0 {
        Seq::empty()
    } else {
        table_sigs(tables.drop_last()) + tables.last()
    }
}

/// The classes after `funcs` are added, in order, to `class_name`.
pub open spec fn classes_after_adds(
    classes: Seq<(Seq<char>, Seq<Seq<char>>)>,
    class_name: Seq<char>,
    funcs: Seq<Seq<char>>,
) -> Seq<(Seq<char>, Seq<Seq<char>>)>
    decreases funcs.len(),
{
    if funcs.len() == 0 {
        classes
    } else {
        classes_after_add(classes_after_adds(classes, class_name, funcs.drop_last()), class_name, funcs.last())
    }
}

/// The classes after the pure virtual placeholders of each vtable entry
/// whose class `old_keeps` (as `Class::init()`) are added to it.
pub open spec fn classes_with_pure_virtuals(
    classes: Seq<(Seq<char>, Seq<Seq<char>>)>,
    vtables: Seq<(Seq<char>, Seq<Seq<Seq<char>>>)>,
) -> Seq<(Seq<char>, Seq<Seq<char>>)>
    decreases vtables.len(),
{
    if vtables.len() == 0 {
        classes
    } else {
        let prev = classes_with_pure_virtuals(classes, vtables.drop_last());
        let (name, tables) = vtables.last();
        if old_keeps(name + "::init()"@) {
            classes_after_adds(prev, name, pure_virtuals(table_sigs(tables)))
        } else {
            prev
        }
    }
}

/// The groups of a match that took part in it.
fn present_groups_exec(groups: &Vec<Option<String>>) -> (v: Vec<String>)
    ensures
        strings_view(v@) == present_groups(groups_view(groups@)),
{
    let ghost gv = groups_view(groups@);
    let mut v: Vec<String> = Vec::new();
    let n = groups.len();
    for i in 0..n
        invariant
            n == groups@.len(),
            gv == groups_view(groups@),
            strings_view(v@) == present_groups(gv.take(i as int)),
    {
        assert(gv.take(i + 1).drop_last() =~= gv.take(i as int));
        assert(gv.take(i + 1).last() == gv[i as int]);
        match &groups[i] {
            Some(g) => {
                let ghost before = strings_view(v@);
                v.push(g.clone());
                assert(strings_view(v@) =~= before.push(g@));
            },
            None => {},
        }
    }
    assert(gv.take(n as int) =~= gv);
    v
}

/// What `sym` contributes (see `symbol_contribution`).
fn symbol_contribution_exec(sym: &str) -> (r: Option<Option<(String, String)>>)
    ensures
        match r {
            Some(Some((c, f))) => symbol_contribution(sym@) == Some(Some((c@, f@))),
            Some(None) => symbol_contribution(sym@) == Some(None::<(Seq<char>, Seq<char>)>),
            None => symbol_contribution(sym@) == None::<Option<(Seq<char>, Seq<char>)>>,
        },
{
    if !old_should_keep_symbol(sym) {
        return Some(None);
    }
    let groups = match regex_captures(FILTER_FUNCTIONS, sym) {
        Some(Some(groups)) => groups,
        _ => { return Some(None); },
    };
    let ghost gv = groups_view(groups@);
    if groups.len() < 2 {
        return None;
    }
    let class_part = match &groups[1] {
        Some(c) => c,
        None => { return None; },
    };
    assert(gv[1] == Some(class_part@));
    if ends_with_exec(chars_of(class_part.as_str()).as_slice(), chars_of("::").as_slice()) {
        return Some(None);
    }
    let present = present_groups_exec(&groups);
    if present.len() < 2 || str_eq(present[1].as_str(), "cocos2d") {
        return Some(None);
    }
    if present.len() < 3 {
        return None;
    }
    Some(Some((present[1].clone(), present[2].clone())))
}

/// The distinct `pure_virtual_` placeholders of the tables, in order of
/// first appearance.
fn pure_virtuals_exec(tables: &Vec<Vec<String>>) -> (v: Vec<String>)
    ensures
        strings_view(v@) == pure_virtuals(table_sigs(tables@.map_values(|t: Vec<String>| strings_view(t@)))),
{
    let ghost tv = tables@.map_values(|t: Vec<String>| strings_view(t@));
    let mut v: Vec<String> = Vec::new();
    let n = tables.len();
    for ti in 0..n
        invariant
            n == tables@.len(),
            tv == tables@.map_values(|t: Vec<String>| strings_view(t@)),
            strings_view(v@) == pure_virtuals(table_sigs(tv.take(ti as int))),
    {
        assert(tv.take(ti + 1).drop_last() =~= tv.take(ti as int));
        let t = &tables[ti];
        let ghost base = table_sigs(tv.take(ti as int));
        let m = t.len();
        for j in 0..m
            invariant
                m == t@.len(),
                ti < n,
                n == tables@.len(),
                t@ == tables@[ti as int]@,
                tv == tables@.map_values(|t: Vec<String>| strings_view(t@)),
                base == table_sigs(tv.take(ti as int)),
                strings_view(v@) == pure_virtuals(base + strings_view(t@).take(j as int)),
        {
            let ghost all = base + strings_view(t@).take(j + 1);
            assert(all.drop_last() =~= base + strings_view(t@).take(j as int));
            assert(all.last() == t@[j as int]@);
            let s = chars_of(t[j].as_str());
            if starts_with_exec(s.as_slice(), chars_of("pure_virtual_").as_slice()) {
                let mut seen = false;
                let k = v.len();
                for x in 0..k
                    invariant
                        k == v@.len(),
                        j < m,
                        m == t@.len(),
                        seen == (exists|y: int| 0 <= y < x && v@[y]@ == t@[j as int]@),
                {
                    if str_eq(v[x].as_str(), t[j].as_str()) {
                        seen = true;
                    }
                }
                let ghost prev = strings_view(v@);
                assert(seen == prev.contains(t@[j as int]@)) by {
                    if seen {
                        let y = choose|y: int| 0 <= y < k && v@[y]@ == t@[j as int]@;
                        assert(prev[y] == t@[j as int]@);
                    }
                    if prev.contains(t@[j as int]@) {
                        let y = choose|y: int| 0 <= y < prev.len() && prev[y] == t@[j as int]@;
                        assert(v@[y]@ == t@[j as int]@);
                    }
                }
                if !seen {
                    v.push(t[j].clone());
                    assert(strings_view(v@) =~= prev.push(t@[j as int]@));
                }
            }
        }
        assert(strings_view(t@).take(m as int) =~= tv[ti as int]);
    }
    assert(tv.take(n as int) =~= tv);
    v
}

/// The signature results of a release without a Windows build: the
/// functions of `android_symbols` (already cleaned), the vtables attached,
/// and the pure virtual placeholders added (see `classes_from_symbols`,
/// `classes_with_pure_virtuals`). `None` when a symbol has no readable
/// class (see `symbol_contribution`).
pub fn collect_old_signatures(android_symbols: &Vec<String>, vtables: Vec<(String, Vec<Vec<String>>)>) -> (r: Option<
    OldSignatureResults,
>)
    requires
        tables_fit(vtables_view(vtables@)),
        keys_of(vtables_view(vtables@)).no_duplicates(),
    ensures
        match r {
            Some(osr) => {
                &&& osr.vtables() == vtables_view(vtables@)
                &&& classes_from_symbols(Seq::empty(), strings_view(android_symbols@)) matches Some(cs)
                &&& osr.classes() == classes_with_pure_virtuals(cs, vtables_view(vtables@))
            },
            None => classes_from_symbols(Seq::empty(), strings_view(android_symbols@)) is None,
        },
{
    let mut osr = OldSignatureResults::new();
    let ghost syms = strings_view(android_symbols@);
    let n = android_symbols.len();
    for i in 0..n
        invariant
            n == android_symbols@.len(),
            syms == strings_view(android_symbols@),
            classes_from_symbols(Seq::empty(), syms.take(i as int)) == Some(osr.classes()),
            osr.vtables() == Seq::<(Seq<char>, Seq<Seq<Seq<char>>>)>::empty(),
    {
        assert(syms.take(i + 1).drop_last() =~= syms.take(i as int));
        assert(syms.take(i + 1).last() == syms[i as int]);
        match symbol_contribution_exec(android_symbols[i].as_str()) {
            Some(Some((c, f))) => {
                osr.add_func_to_class(c.as_str(), f.as_str());
            },
            Some(None) => {},
            None => {
                proof { lemma_symbols_undefined(syms, i + 1); }
                return None;
            },
        }
    }
    assert(syms.take(n as int) =~= syms);
    let ghost symbol_classes = osr.classes();
    let ghost vv = vtables_view(vtables@);
    let m = vtables.len();
    let mut additions: Vec<(String, Vec<String>)> = Vec::new();
    for e in 0..m
        invariant
            m == vtables@.len(),
            vv == vtables_view(vtables@),
            additions@.len() == e,
            forall|d: int| 0 <= d < e ==> #[trigger] additions@[d].0@ == vv[d].0,
            forall|d: int| 0 <= d < e ==> strings_view(#[trigger] additions@[d].1@) == (
                if old_keeps(vv[d].0 + "::init()"@) { pure_virtuals(table_sigs(vv[d].1)) } else { Seq::empty() }),
    {
        let name = &vtables[e].0;
        let probe = name.clone().concat("::init()");
        let pvs = if old_should_keep_symbol(probe.as_str()) {
            assert(vv[e as int].1 == vtables@[e as int].1@.map_values(|t: Vec<String>| strings_view(t@)));
            pure_virtuals_exec(&vtables[e].1)
        } else {
            let empty: Vec<String> = Vec::new();
            assert(strings_view(empty@) =~= Seq::<Seq<char>>::empty());
            empty
        };
        additions.push((name.clone(), pvs));
    }
    osr.set_vtables(vtables);
    for e in 0..m
        invariant
            m == additions@.len(),
            m == vv.len(),
            osr.vtables() == vv,
            forall|d: int| 0 <= d < m ==> #[trigger] additions@[d].0@ == vv[d].0,
            forall|d: int| 0 <= d < m ==> strings_view(#[trigger] additions@[d].1@) == (
                if old_keeps(vv[d].0 + "::init()"@) { pure_virtuals(table_sigs(vv[d].1)) } else { Seq::empty() }),
            osr.classes() == classes_with_pure_virtuals(symbol_classes, vv.take(e as int)),
    {
        assert(vv.take(e + 1).drop_last() =~= vv.take(e as int));
        assert(vv.take(e + 1).last() == vv[e as int]);
        let ghost start = osr.classes();
        let ghost adds = strings_view(additions@[e as int].1@);
        let k = additions[e].1.len();
        for j in 0..k
            invariant
                k == additions@[e as int].1@.len(),
                e < m,
                m == additions@.len(),
                adds == strings_view(additions@[e as int].1@),
                osr.vtables() == vv,
                osr.classes() == classes_after_adds(start, additions@[e as int].0@, adds.take(j as int)),
        {
            assert(adds.take(j + 1).drop_last() =~= adds.take(j as int));
            osr.add_func_to_class(additions[e].0.as_str(), additions[e].1[j].as_str());
        }
        assert(adds.take(k as int) =~= adds);
        proof {
            if !old_keeps(vv[e as int].0 + "::init()"@) {
                assert(adds.len() == 0);
            }
        }
    }
    assert(vv.take(m as int) =~= vv);
    Some(osr)
}

/// The vtables file to read: the one given, or `vtables.json` with a
/// warning (`true`) when none is.
pub fn vtables_path_or_default(vtables: Option<String>) -> (r: (String, bool))
    ensures
        match vtables {
            Some(p) => r.0@ == p@ && !r.1,
            None => r.0@ == "vtables.json"@ && r.1,
        },
{
    match vtables {
        Some(p) => (p, false),
        None => (String::from_str("vtables.json"), true),
    }
}

} // verus!
