//! Classes, their functions and their vtables: how functions are grouped
//! and ordered inside a class, how a full declaration is guessed for each,
//! and how the whole broma file is laid out.

use vstd::prelude::*;
use vstd::string::StringExecFns;
use crate::text::{
    cat, chars_of, contains_exec, contains_seq, find_char, find_char_exec, head_before,
    lemma_contains_parts, lemma_contains_trans, lemma_find_char, push_chars, slice_chars, starts_with, starts_with_exec, str_eq,
    strings_view,
};
use crate::parsing_logic::{is_static_func, static_func};
use crate::layout::{is_layout, lay_out, layout_of, layout_view, lemma_layout_of, group_layout_view};
use crate::parsing_logic::{comments_out, should_comment_out_function};
use crate::writer::{broma_prologue, class_closing, class_opening, BromaWriter};
use crate::matching::regex_replace_first;
use crate::laws::{block_declares, law_block_declares_each_function};
use crate::re::{regex_finds, regex_finds_exec, rewrite_first, GET_ATTR, IS_ATTR, ON_CCOBJECT, SETTER_ARGUMENT, SET_ATTR};

verus! {

/// Where a function is placed: a group of its own (`INDEX`), or a slot of
/// the class's vtable (`VTINDEX`).
#[derive(Clone, Copy, Debug)]
pub enum Group {
    INDEX(i32),
    VTINDEX(i32),
}

/// The group of `func_sig` in `class_name`: constructors and destructors
/// first (-3), then static functions (-2), then virtual functions by vtable
/// slot, and every other function with the static ones.
pub open spec fn group_of(class_name: Seq<char>, func_sig: Seq<char>, vtable_index: Option<i32>) -> Group {
    if starts_with(func_sig, class_name + "("@) || starts_with(func_sig, "~"@) {
        Group::INDEX(-3i32)
    } else if static_func(class_name, func_sig) {
        Group::INDEX(-2i32)
    } else {
        match vtable_index {
            Some(vi) => Group::VTINDEX(vi),
            None => Group::INDEX(-2i32),
        }
    }
}

/// The (group, order) pair each function is filed under, in order: a
/// group index sets the group and keeps the order last set, a vtable slot
/// sets the order and keeps the group last set; both start at 0.
pub open spec fn placements(groups: Seq<Group>) -> Seq<(i32, i32)>
    decreases groups.len(),
{
    if groups.len() == 0 {
        Seq::empty()
    } else {
        let prev = placements(groups.drop_last());
        let last = if prev.len() == 0 { (0i32, 0i32) } else { prev.last() };
        match groups.last() {
            Group::INDEX(x) => prev.push((x, last.1)),
            Group::VTINDEX(x) => prev.push((last.0, x)),
        }
    }
}

/// Position of the first occurrence of `x` in `s`.
pub open spec fn position_of<A>(s: Seq<A>, x: A) -> Option<int>
    decreases s.len(),
{
    if s.len() == 0 {
        None
    } else if s[0] == x {
        Some(0)
    } else {
        match position_of(s.drop_first(), x) {
            Some(i) => Some(i + 1),
            None => None,
        }
    }
}

/// Characterisation of `position_of`.
pub proof fn lemma_position_of<A>(s: Seq<A>, x: A)
    ensures
        match position_of(s, x) {
            Some(i) => 0 <= i < s.len() && s[i] == x && forall|j: int| 0 <= j < i ==> s[j] != x,
            None => forall|j: int| 0 <= j < s.len() ==> s[j] != x,
        },
    decreases s.len(),
{
    if s.len() > 0 && s[0] != x {
        lemma_position_of(s.drop_first(), x);
        assert forall|j: int| 1 <= j < s.len() implies s[j] == s.drop_first()[j - 1] by {}
    }
}

/// The characterisation determines `position_of`.
pub proof fn lemma_position_of_unique<A>(s: Seq<A>, x: A, p: int)
    requires
        0 <= p <= s.len(),
        forall|j: int| 0 <= j < p ==> s[j] != x,
        p < s.len() ==> s[p] == x,
    ensures
        position_of(s, x) == (if p < s.len() { Some(p) } else { None::<int> }),
{
    lemma_position_of(s, x);
    match position_of(s, x) {
        Some(i) => {
            if i < p {
            } else if p < i {
                assert(s[p] == x);
            }
        },
        None => {
            if p < s.len() {
                assert(s[p] == x);
            }
        },
    }
}

/// The keys of a list of entries.
pub open spec fn keys_of<V>(s: Seq<(Seq<char>, V)>) -> Seq<Seq<char>> {
    s.map_values(|e: (Seq<char>, V)| e.0)
}

/// Position of the first entry of `s` whose key is `k`.
pub open spec fn key_position<V>(s: Seq<(Seq<char>, V)>, k: Seq<char>) -> Option<int> {
    position_of(keys_of(s), k)
}

/// The value stored under the first occurrence of key `k`.
pub open spec fn lookup<V>(s: Seq<(Seq<char>, V)>, k: Seq<char>) -> Option<V> {
    match key_position(s, k) {
        Some(i) => Some(s[i].1),
        None => None,
    }
}

/// The vtable slot of `sig` in `tables`: its position in the first table
/// (in order) that holds it.
pub open spec fn slot_in_tables(tables: Seq<Seq<Seq<char>>>, sig: Seq<char>) -> Option<int>
    decreases tables.len(),
{
    if tables.len() == 0 {
        None
    } else {
        match position_of(tables[0], sig) {
            Some(i) => Some(i),
            None => slot_in_tables(tables.drop_first(), sig),
        }
    }
}

/// The vtables of class `name` (the first entry under that name), and the
/// slot of `func_sig` in them.
pub open spec fn vtable_slot(vtables: Seq<(Seq<char>, Seq<Seq<Seq<char>>>)>, name: Seq<char>, func_sig: Seq<char>) -> Option<i32> {
    match lookup(vtables, name) {
        Some(tables) => match slot_in_tables(tables, func_sig) {
            Some(i) => Some(i as i32),
            None => None,
        },
        None => None,
    }
}

/// Views of vtable lists: class name, then its tables of signatures.
pub open spec fn vtables_view(v: Seq<(String, Vec<Vec<String>>)>) -> Seq<(Seq<char>, Seq<Seq<Seq<char>>>)> {
    v.map_values(|e: (String, Vec<Vec<String>>)| (e.0@, e.1@.map_values(|t: Vec<String>| strings_view(t@))))
}

/// Views of class lists: class name, then its function signatures.
pub open spec fn classes_view(v: Seq<(String, Vec<String>)>) -> Seq<(Seq<char>, Seq<Seq<char>>)> {
    v.map_values(|e: (String, Vec<String>)| (e.0@, strings_view(e.1@)))
}

/// Every table is short enough for its slots to be numbered by `i32`.
pub open spec fn tables_fit(v: Seq<(Seq<char>, Seq<Seq<Seq<char>>>)>) -> bool {
    forall|i: int, j: int| 0 <= i < v.len() && 0 <= j < v[i].1.len() ==> v[i].1[j].len() <= i32::MAX
}

/// The classes after `func_sig` is added to `class_name`: appended to the
/// functions of its first entry, or a new entry at the end.
pub open spec fn classes_after_add(
    classes: Seq<(Seq<char>, Seq<Seq<char>>)>,
    class_name: Seq<char>,
    func_sig: Seq<char>,
) -> Seq<(Seq<char>, Seq<Seq<char>>)> {
    match key_position(classes, class_name) {
        Some(i) => classes.update(i, (class_name, classes[i].1.push(func_sig))),
        None => classes.push((class_name, seq![func_sig])),
    }
}

/// `s` with its first `from` turned into `to` (as `str::replacen(from, to, 1)`).
pub open spec fn replace_first_char(s: Seq<char>, from: char, to: char) -> Seq<char> {
    match find_char(s, from) {
        Some(i) => s.update(i, to),
        None => s,
    }
}

/// `s` with every `$` doubled: a regex replacement template that stands
/// for `s` itself.
pub open spec fn escape_dollars(s: Seq<char>) -> Seq<char>
    decreases s.len(),
{
    if s.len() == 0 {
        Seq::empty()
    } else if s.last() == '$' {
        escape_dollars(s.drop_last()) + seq!['$', '$']
    } else {
        escape_dollars(s.drop_last()).push(s.last())
    }
}

/// The first of `funcs` that starts with `prefix`.
pub open spec fn first_with_prefix(funcs: Seq<Seq<char>>, prefix: Seq<char>) -> Option<Seq<char>>
    decreases funcs.len(),
{
    if funcs.len() == 0 {
        None
    } else if starts_with(funcs[0], prefix) {
        Some(funcs[0])
    } else {
        first_with_prefix(funcs.drop_first(), prefix)
    }
}

/// Touch handlers of cocos2d with the standard parameters.
pub open spec fn is_touch_handler(name: Seq<char>) -> bool {
    &&& (starts_with(name, "ccTouchBegan("@) || starts_with(name, "ccTouchMoved("@)
        || starts_with(name, "ccTouchEnded("@) || starts_with(name, "ccTouchCancelled("@))
    &&& contains_seq(name, "(cocos2d::CCTouch*, cocos2d::CCEvent*)"@)
}

/// The declaration guessed for a getter: the parameter type of the first
/// function of the class whose name is the setter's (the first `g` turned
/// into `s`, up to the first `(`), put before the getter; `TodoReturn` when
/// there is no such setter. `None` where the name has no `(` after that
/// change, or the class has no functions.
pub open spec fn getter_declaration(funcs: Option<Seq<Seq<char>>>, name: Seq<char>) -> Option<Seq<char>> {
    let renamed = replace_first_char(name, 'g', 's');
    match (find_char(renamed, '('), funcs) {
        (Some(p), Some(fs)) => match first_with_prefix(fs, renamed.take(p)) {
            Some(setter) => Some(rewrite_first(setter, SETTER_ARGUMENT@, "${1} "@ + escape_dollars(name))),
            None => Some("TodoReturn "@ + name),
        },
        _ => None,
    }
}

/// The declaration guessed for function `name` of `class_name`, whose class
/// list is `classes`. `None` on the inputs where no guess can be made (a
/// callback or getter without `(`, a getter of a class with no functions).
pub open spec fn guess_declaration(
    classes: Seq<(Seq<char>, Seq<Seq<char>>)>,
    class_name: Seq<char>,
    name: Seq<char>,
) -> Option<Seq<char>> {
    if starts_with(name, class_name + "("@) || starts_with(name, "~"@) {
        Some(name)
    } else if is_touch_handler(name) {
        Some("void "@ + head_before(name, '(', true) + "(cocos2d::CCTouch* pTouch, cocos2d::CCEvent* pEvent)"@)
    } else if starts_with(name, "create("@) || (starts_with(name, "shared"@) && static_func(class_name, name)) {
        Some(class_name + "* "@ + name)
    } else if starts_with(name, "init("@) {
        Some("bool "@ + name)
    } else if regex_finds(ON_CCOBJECT@, name) {
        match find_char(name, '(') {
            Some(i) => Some("void "@ + name.take(i) + "(cocos2d::CCObject* sender)"@),
            None => None,
        }
    } else if regex_finds(SET_ATTR@, name) {
        Some("void "@ + name)
    } else if regex_finds(IS_ATTR@, name) {
        Some("bool "@ + name)
    } else if regex_finds(GET_ATTR@, name) {
        getter_declaration(lookup(classes, class_name), name)
    } else {
        Some("TodoReturn "@ + name)
    }
}

/// The line declaring function `func` of `class_name`: the guessed
/// declaration, marked `virtual` when it has a vtable slot or else `static`
/// when it is static, ended by `;` (or by an empty body and a note for a
/// `pure_virtual_` placeholder), commented out when `comments_out` says so,
/// indented by four spaces.
pub open spec fn declaration_line(
    classes: Seq<(Seq<char>, Seq<Seq<char>>)>,
    vtables: Seq<(Seq<char>, Seq<Seq<Seq<char>>>)>,
    class_name: Seq<char>,
    func: Seq<char>,
) -> Option<Seq<char>> {
    match guess_declaration(classes, class_name, func) {
        None => None,
        Some(g) => {
            let marked = if vtable_slot(vtables, class_name, func) is Some {
                "virtual "@ + g
            } else if static_func(class_name, func) {
                "static "@ + g
            } else {
                g
            };
            let ended = if starts_with(func, "pure_virtual_"@) {
                marked + "{} // TODO: figure out what function this is"@
            } else {
                marked + ";"@
            };
            let line = if comments_out(class_name, func) { "// "@ + ended } else { ended };
            Some("    "@ + line + "\n"@)
        },
    }
}

/// `a` followed by `b`, when both are defined.
pub open spec fn join(a: Option<Seq<char>>, b: Option<Seq<char>>) -> Option<Seq<char>> {
    match (a, b) {
        (Some(x), Some(y)) => Some(x + y),
        _ => None,
    }
}

/// The texts of `parts` one after the other, when all are defined.
pub open spec fn join_all(parts: Seq<Option<Seq<char>>>) -> Option<Seq<char>>
    decreases parts.len(),
{
    if parts.len() == 0 {
        Some(Seq::empty())
    } else {
        join(join_all(parts.drop_last()), parts.last())
    }
}

/// Joining one more part.
pub proof fn lemma_join_all_step(parts: Seq<Option<Seq<char>>>, i: int)
    requires
        0 <= i < parts.len(),
    ensures
        join_all(parts.take(i + 1)) == join(join_all(parts.take(i)), parts[i]),
{
    assert(parts.take(i + 1).drop_last() =~= parts.take(i));
}

/// An undefined part leaves the whole undefined.
pub proof fn lemma_join_all_undefined(parts: Seq<Option<Seq<char>>>, i: int)
    requires
        0 <= i <= parts.len(),
        join_all(parts.take(i)) is None,
    ensures
        join_all(parts) is None,
    decreases parts.len() - i,
{
    if i < parts.len() {
        lemma_join_all_step(parts, i);
        lemma_join_all_undefined(parts, i + 1);
    } else {
        assert(parts.take(i) =~= parts);
    }
}

/// Each part of a defined join is defined and stands in the joined text.
pub proof fn lemma_join_all_part(parts: Seq<Option<Seq<char>>>, t: Seq<char>, i: int)
    requires
        join_all(parts) == Some(t),
        0 <= i < parts.len(),
    ensures
        parts[i] matches Some(p) && contains_seq(t, p),
    decreases parts.len(),
{
    let x = join_all(parts.drop_last()).unwrap();
    let y = parts.last().unwrap();
    assert(t == x + y);
    lemma_contains_parts(x, y);
    if i < parts.len() - 1 {
        lemma_join_all_part(parts.drop_last(), x, i);
        assert(parts.drop_last()[i] == parts[i]);
        let p = parts[i].unwrap();
        lemma_contains_trans(t, x, p);
    }
}

/// The lines declaring the functions `fs`, in order.
pub open spec fn set_lines(
    classes: Seq<(Seq<char>, Seq<Seq<char>>)>,
    vtables: Seq<(Seq<char>, Seq<Seq<Seq<char>>>)>,
    class_name: Seq<char>,
    fs: Seq<Seq<char>>,
) -> Option<Seq<char>> {
    join_all(fs.map_values(|f: Seq<char>| declaration_line(classes, vtables, class_name, f)))
}

/// The text of a group: the lines of each of its orders, each followed by
/// an empty line.
pub open spec fn group_lines(
    classes: Seq<(Seq<char>, Seq<Seq<char>>)>,
    vtables: Seq<(Seq<char>, Seq<Seq<Seq<char>>>)>,
    class_name: Seq<char>,
    l: Seq<(i32, Seq<Seq<char>>)>,
) -> Option<Seq<char>> {
    join_all(l.map_values(|x: (i32, Seq<Seq<char>>)| join(set_lines(classes, vtables, class_name, x.1), Some("\n"@))))
}

/// The text of a layout: its groups, in order.
pub open spec fn layout_lines(
    classes: Seq<(Seq<char>, Seq<Seq<char>>)>,
    vtables: Seq<(Seq<char>, Seq<Seq<Seq<char>>>)>,
    class_name: Seq<char>,
    r: Seq<(i32, Seq<(i32, Seq<Seq<char>>)>)>,
) -> Option<Seq<char>> {
    join_all(r.map_values(|g: (i32, Seq<(i32, Seq<Seq<char>>)>)| group_lines(classes, vtables, class_name, g.1)))
}

/// Where the functions `funcs` of `class_name` are placed.
pub open spec fn class_placements(
    vtables: Seq<(Seq<char>, Seq<Seq<Seq<char>>>)>,
    class_name: Seq<char>,
    funcs: Seq<Seq<char>>,
) -> Seq<(i32, i32)> {
    placements(funcs.map_values(|f: Seq<char>| group_of(class_name, f, vtable_slot(vtables, class_name, f))))
}

/// The declaration of class `class_name` with the functions `funcs`, laid
/// out as `layout_of` says.
pub open spec fn class_block(
    classes: Seq<(Seq<char>, Seq<Seq<char>>)>,
    vtables: Seq<(Seq<char>, Seq<Seq<Seq<char>>>)>,
    class_name: Seq<char>,
    funcs: Seq<Seq<char>>,
) -> Option<Seq<char>> {
    match layout_lines(classes, vtables, class_name, layout_of(funcs, class_placements(vtables, class_name, funcs))) {
        Some(t) => Some(class_opening(class_name) + t + class_closing()),
        None => None,
    }
}

/// The broma file for the classes `cs`: the prologue, then each class.
pub open spec fn broma_text(
    classes: Seq<(Seq<char>, Seq<Seq<char>>)>,
    vtables: Seq<(Seq<char>, Seq<Seq<Seq<char>>>)>,
    cs: Seq<(Seq<char>, Seq<Seq<char>>)>,
) -> Option<Seq<char>> {
    join(
        Some(broma_prologue()),
        join_all(cs.map_values(|c: (Seq<char>, Seq<Seq<char>>)| class_block(classes, vtables, c.0, c.1))),
    )
}

/// The results of reading symbols and vtables, from which broma is written.
pub trait SignatureResults: Sized {
    /// The vtable slot of `func_sig` in the vtables of class `name`.
    spec fn spec_vtable_index(&self, name: Seq<char>, func_sig: Seq<char>) -> Option<i32>;

    fn new() -> Self;

    fn best_effort_guess(&self, class_name: &str, name: &str) -> Option<String>;

    fn set_vtables(&mut self, vtables: Vec<(String, Vec<Vec<String>>)>)
        requires
            tables_fit(vtables_view(vtables@)),
            keys_of(vtables_view(vtables@)).no_duplicates(),
    ;

    fn vtable_index_for_func(&self, name: &str, func_sig: &str) -> (r: Option<i32>)
        ensures
            r == self.spec_vtable_index(name@, func_sig@),
    ;

    /// Whether `func_sig` has a slot in the vtables of `name`.
    fn is_virtual(&self, name: &str, func_sig: &str) -> (b: bool)
        ensures
            b == self.spec_vtable_index(name@, func_sig@) is Some,
    {
        self.vtable_index_for_func(name, func_sig).is_some()
    }

    /// The group of `func_sig` in `class_name` (see `group_of`).
    fn group_for_function(&self, class_name: &str, func_sig: &str) -> (g: Group)
        ensures
            g == group_of(class_name@, func_sig@, self.spec_vtable_index(class_name@, func_sig@)),
    {
        let cls = chars_of(class_name);
        let sig = chars_of(func_sig);
        let open = crate::text::cat(cls.as_slice(), chars_of("(").as_slice());
        if starts_with_exec(sig.as_slice(), open.as_slice()) || starts_with_exec(sig.as_slice(), chars_of("~").as_slice()) {
            return Group::INDEX(-3);
        }
        if is_static_func(class_name, func_sig) {
            return Group::INDEX(-2);
        }
        match self.vtable_index_for_func(class_name, func_sig) {
            Some(vi) => Group::VTINDEX(vi),
            None => Group::INDEX(-2),
        }
    }

    /// Lays out the functions `funcs` of `class_name`: each is placed by
    /// `placements` over the groups `group_of` gives them, and the result
    /// is the layout `is_layout` describes (groups and orders increasing,
    /// signatures distinct and sorted).
    fn reorder_funcs(&self, class_name: &str, funcs: &Vec<String>) -> (r: Vec<(i32, Vec<(i32, Vec<String>)>)>)
        ensures
            is_layout(
                layout_view(r@),
                strings_view(funcs@),
                placements(strings_view(funcs@).map_values(
                    |f: Seq<char>| group_of(class_name@, f, self.spec_vtable_index(class_name@, f)),
                )),
            ),
    {
        let ghost gs = strings_view(funcs@).map_values(
            |f: Seq<char>| group_of(class_name@, f, self.spec_vtable_index(class_name@, f)),
        );
        let mut places: Vec<(i32, i32)> = Vec::new();
        let mut group: i32 = 0;
        let mut order: i32 = 0;
        let n = funcs.len();
        for i in 0..n
            invariant
                n == funcs@.len(),
                gs == strings_view(funcs@).map_values(
                    |f: Seq<char>| group_of(class_name@, f, self.spec_vtable_index(class_name@, f)),
                ),
                places@ == placements(gs.take(i as int)),
                places@.len() == i,
                i == 0 ==> group == 0 && order == 0,
                i > 0 ==> places@.last() == (group, order),
        {
            let g = self.group_for_function(class_name, funcs[i].as_str());
            assert(gs.take(i + 1).drop_last() =~= gs.take(i as int));
            assert(gs.take(i + 1).last() == g);
            match g {
                Group::INDEX(x) => { group = x; },
                Group::VTINDEX(x) => { order = x; },
            }
            places.push((group, order));
        }
        assert(gs.take(n as int) =~= gs);
        lay_out(funcs, &places)
    }

    fn add_func_to_class(&mut self, class_name: &str, func_sig: &str);

    fn write(&mut self) -> Option<BromaWriter>;
}

/// Android symbols sorted into classes, with the vtables dumped by Ghidra.
///
/// Classes are kept in the order in which they first received a function.
pub struct OldSignatureResults {
    vtables: VtableStore,
    classes: Vec<(String, Vec<String>)>,
}

/// Vtables, at most one entry per class, whose slots can all be numbered
/// by `i32`.
struct VtableStore {
    entries: Vec<(String, Vec<Vec<String>>)>,
}

impl VtableStore {
    #[verifier::type_invariant]
    spec fn well_formed(self) -> bool {
        &&& tables_fit(vtables_view(self.entries@))
        &&& keys_of(vtables_view(self.entries@)).no_duplicates()
    }
}

impl OldSignatureResults {
    /// Each class has at most one entry.
    #[verifier::type_invariant]
    spec fn classes_distinct(self) -> bool {
        keys_of(classes_view(self.classes@)).no_duplicates()
    }
}

impl OldSignatureResults {
    /// The vtables, by class name.
    pub closed spec fn vtables(&self) -> Seq<(Seq<char>, Seq<Seq<Seq<char>>>)> {
        vtables_view(self.vtables.entries@)
    }

    /// The classes and their functions, in order.
    pub closed spec fn classes(&self) -> Seq<(Seq<char>, Seq<Seq<char>>)> {
        classes_view(self.classes@)
    }
}

/// The keys of a list of entries, as texts.
pub open spec fn string_keys<V>(v: Seq<(String, V)>) -> Seq<Seq<char>> {
    v.map_values(|e: (String, V)| e.0@)
}

/// Position of the first entry of `v` whose key is `k`.
fn find_key<V>(v: &Vec<(String, V)>, k: &str) -> (r: Option<usize>)
    ensures
        match r {
            Some(i) => i < v@.len() && position_of(string_keys(v@), k@) == Some(i as int),
            None => position_of(string_keys(v@), k@) == None::<int>,
        },
{
    let ghost keys = string_keys(v@);
    let n = v.len();
    for i in 0..n
        invariant
            n == v@.len(),
            keys == string_keys(v@),
            forall|j: int| 0 <= j < i ==> keys[j] != k@,
    {
        if str_eq(v[i].0.as_str(), k) {
            proof { lemma_position_of_unique(keys, k@, i as int); }
            return Some(i);
        }
    }
    proof { lemma_position_of_unique(keys, k@, n as int); }
    None
}

/// The first position, over the tables in order, at which `func_sig`
/// stands in one of `tables`.
fn slot_in_tables_exec(tables: &Vec<Vec<String>>, func_sig: &str) -> (r: Option<usize>)
    ensures
        match r {
            Some(i) => slot_in_tables(tables@.map_values(|t: Vec<String>| strings_view(t@)), func_sig@) == Some(i as int)
                && exists|j: int| 0 <= j < tables@.len() && i < tables@[j]@.len(),
            None => slot_in_tables(tables@.map_values(|t: Vec<String>| strings_view(t@)), func_sig@) == None::<int>,
        },
{
    let ghost all = tables@.map_values(|t: Vec<String>| strings_view(t@));
    let n = tables.len();
    assert(all.skip(0) == all);
    for ti in 0..n
        invariant
            n == tables@.len(),
            all == tables@.map_values(|t: Vec<String>| strings_view(t@)),
            slot_in_tables(all, func_sig@) == slot_in_tables(all.skip(ti as int), func_sig@),
    {
        let t = &tables[ti];
        let m = t.len();
        let ghost tv = all[ti as int];
        assert(all.skip(ti as int)[0] == tv);
        assert(all.skip(ti as int).drop_first() == all.skip(ti + 1));
        for idx in 0..m
            invariant
                m == t@.len(),
                n == tables@.len(),
                ti < n,
                t@ == tables@[ti as int]@,
                all == tables@.map_values(|t: Vec<String>| strings_view(t@)),
                tv == all[ti as int],
                tv == strings_view(t@),
                slot_in_tables(all, func_sig@) == slot_in_tables(all.skip(ti as int), func_sig@),
                forall|j: int| 0 <= j < idx ==> tv[j] != func_sig@,
        {
            if str_eq(t[idx].as_str(), func_sig) {
                proof { lemma_position_of_unique(tv, func_sig@, idx as int); }
                assert(ti < tables@.len() && idx < tables@[ti as int]@.len());
                return Some(idx);
            }
        }
        proof { lemma_position_of_unique(tv, func_sig@, m as int); }
        assert(slot_in_tables(all.skip(ti as int), func_sig@) == slot_in_tables(all.skip(ti + 1), func_sig@));
    }
    assert(all.skip(n as int).len() == 0);
    None
}

/// `s` with its first `from` turned into `to`.
fn replace_first_char_exec(s: &[char], from: char, to: char) -> (v: Vec<char>)
    ensures
        v@ == replace_first_char(s@, from, to),
{
    let mut v = slice_chars(s, 0, s.len());
    assert(s@.subrange(0, s@.len() as int) == s@);
    match find_char_exec(s, from) {
        Some(i) => {
            proof { lemma_find_char(s@, from); }
            v.set(i, to);
        },
        None => {},
    }
    v
}

/// `s` with every `$` doubled (see `escape_dollars`).
fn escape_dollars_exec(s: &[char]) -> (v: Vec<char>)
    ensures
        v@ == escape_dollars(s@),
{
    let mut v: Vec<char> = Vec::new();
    let n = s.len();
    for i in 0..n
        invariant
            n == s@.len(),
            v@ == escape_dollars(s@.take(i as int)),
    {
        assert(s@.take(i + 1).drop_last() =~= s@.take(i as int));
        assert(s@.take(i + 1).last() == s@[i as int]);
        if s[i] == '$' {
            v.push('$');
            v.push('$');
            assert(v@ =~= escape_dollars(s@.take(i as int)) + seq!['$', '$']);
        } else {
            v.push(s[i]);
        }
    }
    assert(s@.take(n as int) =~= s@);
    v
}

/// The first of `funcs` that starts with `prefix`.
fn first_with_prefix_exec(funcs: &Vec<String>, prefix: &[char]) -> (r: Option<usize>)
    ensures
        match r {
            Some(i) => i < funcs@.len() && first_with_prefix(strings_view(funcs@), prefix@) == Some(funcs@[i as int]@),
            None => first_with_prefix(strings_view(funcs@), prefix@) == None::<Seq<char>>,
        },
{
    let ghost all = strings_view(funcs@);
    let n = funcs.len();
    assert(all.skip(0) == all);
    for i in 0..n
        invariant
            n == funcs@.len(),
            all == strings_view(funcs@),
            first_with_prefix(all, prefix@) == first_with_prefix(all.skip(i as int), prefix@),
    {
        assert(all.skip(i as int)[0] == funcs@[i as int]@);
        assert(all.skip(i as int).drop_first() == all.skip(i + 1));
        let f = chars_of(funcs[i].as_str());
        if starts_with_exec(f.as_slice(), prefix) {
            return Some(i);
        }
    }
    assert(all.skip(n as int).len() == 0);
    None
}

impl OldSignatureResults {
    /// The line declaring `func` of `class_name` (see `declaration_line`).
    fn declaration_line_exec(&self, class_name: &str, func: &str) -> (r: Option<String>)
        ensures
            match r {
                Some(s) => declaration_line(self.classes(), self.vtables(), class_name@, func@) == Some(s@),
                None => declaration_line(self.classes(), self.vtables(), class_name@, func@) == None::<Seq<char>>,
            },
    {
        let guess = match self.best_effort_guess(class_name, func) {
            Some(g) => g,
            None => { return None; },
        };
        let mut full = if self.is_virtual(class_name, func) {
            String::from_str("virtual ").concat(guess.as_str())
        } else if is_static_func(class_name, func) {
            String::from_str("static ").concat(guess.as_str())
        } else {
            guess
        };
        let f = chars_of(func);
        if starts_with_exec(f.as_slice(), chars_of("pure_virtual_").as_slice()) {
            full.append("{} // TODO: figure out what function this is");
        } else {
            full.append(";");
        }
        if should_comment_out_function(class_name, func) {
            full = String::from_str("// ").concat(full.as_str());
        }
        let mut line = String::from_str("    ");
        line.append(full.as_str());
        line.append("\n");
        Some(line)
    }

    /// Writes the lines declaring `fs`; false, with part of them written,
    /// when some declaration cannot be guessed.
    fn write_set(&self, bw: &mut BromaWriter, class_name: &str, fs: &Vec<String>) -> (ok: bool)
        ensures
            match set_lines(self.classes(), self.vtables(), class_name@, strings_view(fs@)) {
                Some(t) => ok && final(bw).code@ == old(bw).code@ + t,
                None => !ok,
            },
    {
        let ghost parts = strings_view(fs@).map_values(
            |f: Seq<char>| declaration_line(self.classes(), self.vtables(), class_name@, f),
        );
        let ghost mut acc: Seq<char> = Seq::empty();
        let n = fs.len();
        assert(parts.take(0) =~= Seq::<Option<Seq<char>>>::empty());
        for i in 0..n
            invariant
                n == fs@.len(),
                parts == strings_view(fs@).map_values(
                    |f: Seq<char>| declaration_line(self.classes(), self.vtables(), class_name@, f),
                ),
                join_all(parts.take(i as int)) == Some(acc),
                bw.code@ == old(bw).code@ + acc,
        {
            proof { lemma_join_all_step(parts, i as int); }
            match self.declaration_line_exec(class_name, fs[i].as_str()) {
                Some(line) => {
                    bw.write(line.as_str());
                    proof { acc = acc + line@; }
                },
                None => {
                    proof { lemma_join_all_undefined(parts, i + 1); }
                    return false;
                },
            }
        }
        assert(parts.take(n as int) =~= parts);
        true
    }

    /// Writes the text of a group (see `group_lines`); false when some
    /// declaration cannot be guessed.
    fn write_group(&self, bw: &mut BromaWriter, class_name: &str, l: &Vec<(i32, Vec<String>)>) -> (ok: bool)
        ensures
            match group_lines(self.classes(), self.vtables(), class_name@, group_layout_view(l@)) {
                Some(t) => ok && final(bw).code@ == old(bw).code@ + t,
                None => !ok,
            },
    {
        let ghost parts = group_layout_view(l@).map_values(
            |x: (i32, Seq<Seq<char>>)| join(set_lines(self.classes(), self.vtables(), class_name@, x.1), Some("\n"@)),
        );
        let ghost mut acc: Seq<char> = Seq::empty();
        let n = l.len();
        assert(parts.take(0) =~= Seq::<Option<Seq<char>>>::empty());
        for i in 0..n
            invariant
                n == l@.len(),
                parts == group_layout_view(l@).map_values(
                    |x: (i32, Seq<Seq<char>>)| join(set_lines(self.classes(), self.vtables(), class_name@, x.1), Some("\n"@)),
                ),
                join_all(parts.take(i as int)) == Some(acc),
                bw.code@ == old(bw).code@ + acc,
        {
            proof { lemma_join_all_step(parts, i as int); }
            let ghost before = bw.code@;
            if !self.write_set(bw, class_name, &l[i].1) {
                proof { lemma_join_all_undefined(parts, i + 1); }
                return false;
            }
            let ghost written = bw.code@;
            bw.write("\n");
            proof { acc = acc + (written.skip(before.len() as int) + "\n"@); assert(written =~= before + written.skip(before.len() as int)); }
        }
        assert(parts.take(n as int) =~= parts);
        true
    }

    /// Writes the text of a layout (see `layout_lines`); false when some
    /// declaration cannot be guessed.
    fn write_layout(&self, bw: &mut BromaWriter, class_name: &str, r: &Vec<(i32, Vec<(i32, Vec<String>)>)>) -> (ok: bool)
        ensures
            match layout_lines(self.classes(), self.vtables(), class_name@, layout_view(r@)) {
                Some(t) => ok && final(bw).code@ == old(bw).code@ + t,
                None => !ok,
            },
    {
        let ghost parts = layout_view(r@).map_values(
            |g: (i32, Seq<(i32, Seq<Seq<char>>)>)| group_lines(self.classes(), self.vtables(), class_name@, g.1),
        );
        let ghost mut acc: Seq<char> = Seq::empty();
        let n = r.len();
        assert(parts.take(0) =~= Seq::<Option<Seq<char>>>::empty());
        for i in 0..n
            invariant
                n == r@.len(),
                parts == layout_view(r@).map_values(
                    |g: (i32, Seq<(i32, Seq<Seq<char>>)>)| group_lines(self.classes(), self.vtables(), class_name@, g.1),
                ),
                join_all(parts.take(i as int)) == Some(acc),
                bw.code@ == old(bw).code@ + acc,
        {
            proof { lemma_join_all_step(parts, i as int); }
            let ghost before = bw.code@;
            if !self.write_group(bw, class_name, &r[i].1) {
                proof { lemma_join_all_undefined(parts, i + 1); }
                return false;
            }
            proof { acc = acc + bw.code@.skip(before.len() as int); assert(bw.code@ =~= before + bw.code@.skip(before.len() as int)); }
        }
        assert(parts.take(n as int) =~= parts);
        true
    }
}

impl SignatureResults for OldSignatureResults {
    open spec fn spec_vtable_index(&self, name: Seq<char>, func_sig: Seq<char>) -> Option<i32> {
        vtable_slot(self.vtables(), name, func_sig)
    }

    /// No classes and no vtables.
    fn new() -> (r: Self)
        ensures
            r.classes() == Seq::<(Seq<char>, Seq<Seq<char>>)>::empty(),
            r.vtables() == Seq::<(Seq<char>, Seq<Seq<Seq<char>>>)>::empty(),
    {
        let vtables = VtableStore { entries: Vec::new() };
        assert(keys_of(vtables_view(vtables.entries@)) =~= Seq::<Seq<char>>::empty());
        let classes: Vec<(String, Vec<String>)> = Vec::new();
        assert(keys_of(classes_view(classes@)) =~= Seq::<Seq<char>>::empty());
        let r = Self { vtables, classes };
        assert(r.classes() =~= Seq::<(Seq<char>, Seq<Seq<char>>)>::empty());
        assert(r.vtables() =~= Seq::<(Seq<char>, Seq<Seq<Seq<char>>>)>::empty());
        r
    }

    /// The declaration guessed for function `name` of `class_name` (see
    /// `guess_declaration`).
    fn best_effort_guess(&self, class_name: &str, name: &str) -> (r: Option<String>)
        ensures
            match r {
                Some(s) => guess_declaration(self.classes(), class_name@, name@) == Some(s@),
                None => guess_declaration(self.classes(), class_name@, name@) == None::<Seq<char>>,
            },
    {
        let cls = chars_of(class_name);
        let nm = chars_of(name);
        let ctor = cat(cls.as_slice(), chars_of("(").as_slice());
        if starts_with_exec(nm.as_slice(), ctor.as_slice()) || starts_with_exec(nm.as_slice(), chars_of("~").as_slice()) {
            return Some(String::from_str(name));
        }
        let touch = (starts_with_exec(nm.as_slice(), chars_of("ccTouchBegan(").as_slice())
            || starts_with_exec(nm.as_slice(), chars_of("ccTouchMoved(").as_slice())
            || starts_with_exec(nm.as_slice(), chars_of("ccTouchEnded(").as_slice())
            || starts_with_exec(nm.as_slice(), chars_of("ccTouchCancelled(").as_slice()))
            && contains_exec(nm.as_slice(), chars_of("(cocos2d::CCTouch*, cocos2d::CCEvent*)").as_slice());
        if touch {
            let head = match find_char_exec(nm.as_slice(), '(') {
                Some(i) => {
                    proof { lemma_find_char(nm@, '('); }
                    slice_chars(nm.as_slice(), 0, i)
                },
                None => {
                    assert(nm@.subrange(0, nm@.len() as int) == nm@);
                    slice_chars(nm.as_slice(), 0, nm.len())
                },
            };
            let mut out = String::from_str("void ");
            push_chars(&mut out, head.as_slice());
            out.append("(cocos2d::CCTouch* pTouch, cocos2d::CCEvent* pEvent)");
            return Some(out);
        }
        if starts_with_exec(nm.as_slice(), chars_of("create(").as_slice())
            || (starts_with_exec(nm.as_slice(), chars_of("shared").as_slice()) && is_static_func(class_name, name))
        {
            let mut out = String::from_str(class_name);
            out.append("* ");
            out.append(name);
            return Some(out);
        }
        if starts_with_exec(nm.as_slice(), chars_of("init(").as_slice()) {
            return Some(String::from_str("bool ").concat(name));
        }
        if regex_finds_exec(ON_CCOBJECT, name) {
            return match find_char_exec(nm.as_slice(), '(') {
                Some(i) => {
                    proof { lemma_find_char(nm@, '('); }
                    let mut out = String::from_str("void ");
                    push_chars(&mut out, slice_chars(nm.as_slice(), 0, i).as_slice());
                    out.append("(cocos2d::CCObject* sender)");
                    Some(out)
                },
                None => None,
            };
        }
        if regex_finds_exec(SET_ATTR, name) {
            return Some(String::from_str("void ").concat(name));
        }
        if regex_finds_exec(IS_ATTR, name) {
            return Some(String::from_str("bool ").concat(name));
        }
        if regex_finds_exec(GET_ATTR, name) {
            let renamed = replace_first_char_exec(nm.as_slice(), 'g', 's');
            let p = match find_char_exec(renamed.as_slice(), '(') {
                Some(p) => p,
                None => { return None; },
            };
            proof { lemma_find_char(renamed@, '('); }
            let set_name = slice_chars(renamed.as_slice(), 0, p);
            let ghost cv = self.classes();
            assert(keys_of(cv) =~= string_keys(self.classes@));
            let ci = match find_key(&self.classes, class_name) {
                Some(ci) => ci,
                None => { return None; },
            };
            let funcs = &self.classes[ci].1;
            assert(cv[ci as int].1 == strings_view(funcs@));
            return match first_with_prefix_exec(funcs, set_name.as_slice()) {
                Some(fi) => {
                    let mut template = String::from_str("${1} ");
                    push_chars(&mut template, escape_dollars_exec(nm.as_slice()).as_slice());
                    match regex_replace_first(SETTER_ARGUMENT, funcs[fi].as_str(), template.as_str()) {
                        Some(t) => Some(t),
                        None => Some(funcs[fi].clone()),
                    }
                },
                None => Some(String::from_str("TodoReturn ").concat(name)),
            };
        }
        Some(String::from_str("TodoReturn ").concat(name))
    }

    /// Replaces the vtables.
    fn set_vtables(&mut self, vtables: Vec<(String, Vec<Vec<String>>)>)
        ensures
            final(self).vtables() == vtables_view(vtables@),
            final(self).classes() == old(self).classes(),
    {
        proof { use_type_invariant(&*self); }
        self.vtables = VtableStore { entries: vtables };
    }

    /// The slot of `func_sig` in the vtables of class `name` (see `vtable_slot`).
    fn vtable_index_for_func(&self, name: &str, func_sig: &str) -> (r: Option<i32>) {
        proof { use_type_invariant(&self.vtables); }
        let ghost vts = self.vtables();
        let entries = &self.vtables.entries;
        assert(keys_of(vts) =~= string_keys(entries@));
        match find_key(entries, name) {
            None => None,
            Some(p) => {
                let tables = &entries[p].1;
                assert(vts[p as int].1 =~= tables@.map_values(|t: Vec<String>| strings_view(t@)));
                match slot_in_tables_exec(tables, func_sig) {
                    Some(i) => {
                        let ghost j = choose|j: int| 0 <= j < tables@.len() && i < tables@[j]@.len();
                        assert(vts[p as int].1[j].len() <= i32::MAX);
                        Some(i as i32)
                    },
                    None => None,
                }
            },
        }
    }

    /// Writes the broma file: the prologue, then every class in order, its
    /// functions laid out by `reorder_funcs` (see `broma_text`). `None`
    /// when the declaration of some function cannot be guessed.
    #[verifier::rlimit(40)]
    fn write(&mut self) -> (r: Option<BromaWriter>)
        ensures
            final(self).classes() == old(self).classes(),
            final(self).vtables() == old(self).vtables(),
            match r {
                Some(bw) => {
                    &&& broma_text(old(self).classes(), old(self).vtables(), old(self).classes()) == Some(bw.code@)
                    &&& forall|k: int, e: int|
                        0 <= k < old(self).classes().len() && 0 <= e < old(self).classes()[k].1.len() ==> #[trigger] block_declares(
                            old(self).classes(),
                            old(self).vtables(),
                            old(self).classes()[k].0,
                            old(self).classes()[k].1,
                            old(self).classes()[k].1[e],
                        )
                },
                None => broma_text(old(self).classes(), old(self).vtables(), old(self).classes()) == None::<Seq<char>>,
            },
    {
        let mut bw = BromaWriter::new();
        let ghost cl = self.classes();
        let ghost vt = self.vtables();
        let ghost parts = cl.map_values(|c: (Seq<char>, Seq<Seq<char>>)| class_block(cl, vt, c.0, c.1));
        let ghost mut acc: Seq<char> = Seq::empty();
        let n = self.classes.len();
        assert(parts.take(0) =~= Seq::<Option<Seq<char>>>::empty());
        for i in 0..n
            invariant
                n == self.classes@.len(),
                cl == self.classes(),
                vt == self.vtables(),
                parts == cl.map_values(|c: (Seq<char>, Seq<Seq<char>>)| class_block(cl, vt, c.0, c.1)),
                join_all(parts.take(i as int)) == Some(acc),
                bw.code@ == broma_prologue() + acc,
                forall|k: int, e: int|
                    0 <= k < i && 0 <= e < cl[k].1.len() ==> #[trigger] block_declares(cl, vt, cl[k].0, cl[k].1, cl[k].1[e]),
        {
            proof { lemma_join_all_step(parts, i as int); }
            let name = &self.classes[i].0;
            let funcs = &self.classes[i].1;
            let ghost sigs = strings_view(funcs@);
            assert(cl[i as int] == (name@, sigs));
            let layout = self.reorder_funcs(name.as_str(), funcs);
            proof {
                let places = class_placements(vt, name@, sigs);
                assert(places == placements(sigs.map_values(
                    |f: Seq<char>| group_of(name@, f, self.spec_vtable_index(name@, f)),
                ))) by {
                    assert(sigs.map_values(|f: Seq<char>| group_of(name@, f, vtable_slot(vt, name@, f))) =~= sigs.map_values(
                        |f: Seq<char>| group_of(name@, f, self.spec_vtable_index(name@, f)),
                    ));
                }
                lemma_layout_of(layout_view(layout@), sigs, places);
            }
            let ghost before = bw.code@;
            bw.declare_class(name.as_str());
            let ghost opened = bw.code@;
            if !self.write_layout(&mut bw, name.as_str(), &layout) {
                proof { lemma_join_all_undefined(parts, i + 1); }
                return None;
            }
            let ghost body = bw.code@.skip(opened.len() as int);
            assert(bw.code@ =~= opened + body);
            bw.close_class_declaration();
            proof {
                assert(class_block(cl, vt, name@, sigs) == Some(class_opening(name@) + body + class_closing()));
                assert forall|e: int| 0 <= e < sigs.len() implies #[trigger] block_declares(cl, vt, name@, sigs, sigs[e]) by {
                    law_block_declares_each_function(cl, vt, name@, sigs, e);
                }
                acc = acc + (class_opening(name@) + body + class_closing());
                assert(bw.code@ =~= broma_prologue() + acc);
            }
        }
        assert(parts.take(n as int) =~= parts);
        Some(bw)
    }

    /// Adds `func_sig` to the functions of `class_name` (see `classes_after_add`).
    fn add_func_to_class(&mut self, class_name: &str, func_sig: &str)
        ensures
            final(self).classes() == classes_after_add(old(self).classes(), class_name@, func_sig@),
            final(self).vtables() == old(self).vtables(),
            keys_of(final(self).classes()).no_duplicates(),
    {
        proof { use_type_invariant(&*self); }
        let ghost before = self.classes();
        let mut classes: Vec<(String, Vec<String>)> = Vec::new();
        assert(keys_of(classes_view(classes@)) =~= Seq::<Seq<char>>::empty());
        std::mem::swap(&mut classes, &mut self.classes);
        assert(classes_view(classes@) == before);
        assert(keys_of(before) =~= string_keys(classes@));
        match find_key(&classes, class_name) {
            Some(i) => {
                let ghost old_classes = classes@;
                proof { lemma_position_of(string_keys(old_classes), class_name@); }
                assert(before[i as int].0 == class_name@);
                classes[i].1.push(String::from_str(func_sig));
                assert(classes@[i as int].0 == old_classes[i as int].0);
                assert(strings_view(classes@[i as int].1@) =~= strings_view(old_classes[i as int].1@).push(func_sig@));
                assert forall|j: int| 0 <= j < old_classes.len() && j != i implies classes@[j] == old_classes[j] by {}
                assert(classes_view(classes@) =~= before.update(i as int, (class_name@, before[i as int].1.push(func_sig@))));
                assert(keys_of(classes_view(classes@)) =~= keys_of(before));
            },
            None => {
                let mut funcs: Vec<String> = Vec::new();
                funcs.push(String::from_str(func_sig));
                classes.push((String::from_str(class_name), funcs));
                assert(strings_view(funcs@) =~= seq![func_sig@]);
                assert(classes_view(classes@) =~= before.push((class_name@, seq![func_sig@])));
                proof { lemma_position_of(keys_of(before), class_name@); }
                assert(keys_of(classes_view(classes@)) =~= keys_of(before).push(class_name@));
            },
        }
        self.classes = classes;
    }
}

} // verus!
