//! Which demangled symbols become bindings, and how individual functions
//! are classified.

use vstd::prelude::*;
use crate::text::{
    cat, chars_eq, chars_of, contains_exec, contains_seq, find_char_exec, head_before, head_before_seq,
    head_before_seq_exec, lemma_find_char,
    slice_chars, starts_with, starts_with_exec, str_eq, string_of, strings_view, tail_from,
};
use crate::logic::keys_of;
use crate::order::{lemma_lex_sorted_no_duplicates, lex_sorted};
use crate::re::{
    clean_function_sig, apply_rewrites, regex_finds, regex_finds_exec, CLEANUP_RULES,
    NEW_JNI_INTERNALS_CHECK, OLD_JNI_INTERALS_CHECK, TYPEINFO_VTABLE_ETC,
};

verus! {

/// Names of the game's enumerations; symbols "in" them are not classes.
pub const ENUMS: [&'static str; 90] = [
    "SearchType",
    "GameObjectType",
    "PulseEffectType",
    "TouchTriggerType",
    "PlayerButton",
    "GhostType",
    "TableViewCellEditingStyle",
    "UserListType",
    "GJErrorCode",
    "AccountError",
    "GJSongError",
    "LikeItemType",
    "CommentError",
    "BackupAccountError",
    "GJMusicAction",
    "CellAction",
    "GJActionCommand",
    "DifficultyIconType",
    "GauntletType",
    "GJMPErrorCode",
    "GJTimedLevelType",
    "SongSelectType",
    "AudioTargetType",
    "FMODReverbPreset",
    "DemonDifficultyType",
    "PlayerCollisionDirection",
    "ChestSpriteState",
    "FormatterType",
    "AudioModType",
    "GJAreaActionType",
    "SFXTriggerState",
    "SongTriggerState",
    "GJGameEvent",
    "GJSmartDirection",
    "SmartBlockType",
    "TouchTriggerControl",
    "SmartPrefabResult",
    "AudioSortType",
    "spriteMode",
    "GJAssetType",
    "CommentKeyType",
    "LevelLeaderboardMode",
    "StatKey",
    "TextStyleType",
    "InputValueType",
    "GJInputStyle",
    "GJDifficultyName",
    "GJFeatureState",
    "GJKeyGroup",
    "GJKeyCommand",
    "SelectSettingType",
    "gjParticleValue",
    "ColorSelectType",
    "AudioGuidelinesType",
    "SmartBrowseFilter",
    "GJUITouchEvent",
    "ObjectScaleType",
    "SavedActiveObjectState",
    "SavedSpecialObjectState",
    "SavedObjectStateRef",
    "CommentType",
    "BoomListType",
    "CurrencySpriteType",
    "CurrencyRewardType",
    "MenuAnimationType",
    "ShopType",
    "ZLayer",
    "UpdateResponse",
    "UnlockType",
    "SpecialRewardItem",
    "EditCommand",
    "PlaybackMode",
    "SelectArtType",
    "UndoCommand",
    "EasingType",
    "GJDifficulty",
    "GJLevelType",
    "GJRewardType",
    "IconType",
    "GJChallengeType",
    "GJScoreType",
    "LevelLeaderboardType",
    "GJHttpType",
    "DialogChatPlacement",
    "DialogAnimationType",
    "ComparisonType",
    "MoveTargetType",
    "TouchToggleMode",
    "LeaderboardState",
    "Speed",
];

/// `c` is one of `ENUMS`.
pub open spec fn is_enum_name(c: Seq<char>) -> bool {
    exists|i: int| 0 <= i < ENUMS@.len() && ENUMS@[i]@ == c
}

/// The class part of a symbol: its text before the first `:`.
pub open spec fn symbol_class(sym: Seq<char>) -> Seq<char> {
    head_before(sym, ':', false)
}

/// Symbols of 1.8 and older worth binding: a member (`::`) that is not
/// type information, a vtable, a thunk or a guard variable, whose class is
/// neither `cocos2d`, `fmt`, an enumeration nor a bundled library.
pub open spec fn old_keeps(sym: Seq<char>) -> bool {
    &&& contains_seq(sym, "::"@)
    &&& !regex_finds(TYPEINFO_VTABLE_ETC@, sym)
    &&& symbol_class(sym) != "cocos2d"@
    &&& symbol_class(sym) != "fmt"@
    &&& !is_enum_name(symbol_class(sym))
    &&& !regex_finds(OLD_JNI_INTERALS_CHECK@, symbol_class(sym))
}

/// The class of a symbol of 1.9 or newer: its text before the first `::`.
pub open spec fn new_symbol_class(sym: Seq<char>) -> Seq<char> {
    head_before_seq(sym, "::"@)
}

/// Symbols of 1.9 and newer worth binding: a member (`::`) that is not
/// type information, a vtable, a thunk or a guard variable, that does not
/// start with `FMOD_`, and whose class (see `new_symbol_class`) is neither
/// a bundled library, `FMOD`, `tk`, `CCContentManager` nor an enumeration.
pub open spec fn new_keeps(sym: Seq<char>) -> bool {
    let class = new_symbol_class(sym);
    &&& contains_seq(sym, "::"@)
    &&& !regex_finds(TYPEINFO_VTABLE_ETC@, sym)
    &&& !regex_finds(NEW_JNI_INTERNALS_CHECK@, class)
    &&& class != "FMOD"@
    &&& !starts_with(sym, "FMOD_"@)
    &&& class != "tk"@
    &&& !is_enum_name(class)
    &&& class != "CCContentManager"@
}

/// Whether `c` is one of `ENUMS`.
fn is_enum_name_exec(c: &[char]) -> (b: bool)
    ensures
        b == is_enum_name(c@),
{
    let n = ENUMS.len();
    for i in 0..n
        invariant
            n == ENUMS@.len(),
            forall|j: int| 0 <= j < i ==> ENUMS@[j]@ != c@,
    {
        let e = chars_of(ENUMS[i]);
        if chars_eq(c, e.as_slice()) {
            return true;
        }
    }
    false
}

/// The text of `s` before its first `c`; all of it, or nothing, when there
/// is no `c`, as `absent_keeps_all` says.
fn head_before_exec(s: &[char], c: char, absent_keeps_all: bool) -> (v: Vec<char>)
    ensures
        v@ == head_before(s@, c, absent_keeps_all),
{
    match find_char_exec(s, c) {
        Some(i) => {
            proof { lemma_find_char(s@, c); }
            slice_chars(s, 0, i)
        },
        None => if absent_keeps_all {
            slice_chars(s, 0, s.len())
        } else {
            Vec::new()
        },
    }
}

/// The text of `s` from its first `c` on.
fn tail_from_exec(s: &[char], c: char) -> (v: Vec<char>)
    ensures
        v@ == tail_from(s@, c),
{
    match find_char_exec(s, c) {
        Some(i) => {
            proof { lemma_find_char(s@, c); }
            slice_chars(s, i, s.len())
        },
        None => slice_chars(s, 0, s.len()),
    }
}

/// Decides whether a symbol of 1.8 or older is kept (see `old_keeps`).
pub fn old_should_keep_symbol(sym: &str) -> (keep: bool)
    ensures
        keep == old_keeps(sym@),
{
    let s = chars_of(sym);
    let sep = chars_of("::");
    if !contains_exec(s.as_slice(), sep.as_slice()) || regex_finds_exec(TYPEINFO_VTABLE_ETC, sym) {
        return false;
    }
    let class_chars = head_before_exec(s.as_slice(), ':', false);
    let cocos = chars_of("cocos2d");
    if chars_eq(class_chars.as_slice(), cocos.as_slice()) {
        return false;
    }
    let fmt = chars_of("fmt");
    if chars_eq(class_chars.as_slice(), fmt.as_slice()) {
        return false;
    }
    if is_enum_name_exec(class_chars.as_slice()) {
        return false;
    }
    let class_name = string_of(class_chars.as_slice());
    !regex_finds_exec(OLD_JNI_INTERALS_CHECK, class_name.as_str())
}

/// Decides whether a symbol of 1.9 or newer is kept (see `new_keeps`).
pub fn new_should_keep_symbol(sym: &str) -> (keep: bool)
    ensures
        keep == new_keeps(sym@),
{
    let s = chars_of(sym);
    let sep = chars_of("::");
    proof { reveal_strlit("::"); }
    if !contains_exec(s.as_slice(), sep.as_slice()) || regex_finds_exec(TYPEINFO_VTABLE_ETC, sym) {
        return false;
    }
    let class_chars = head_before_seq_exec(s.as_slice(), sep.as_slice());
    let class_name = string_of(class_chars.as_slice());
    let fmod = chars_of("FMOD");
    let fmod_prefix = chars_of("FMOD_");
    let tk = chars_of("tk");
    let content_manager = chars_of("CCContentManager");
    if regex_finds_exec(NEW_JNI_INTERNALS_CHECK, class_name.as_str())
        || chars_eq(class_chars.as_slice(), fmod.as_slice())
        || starts_with_exec(s.as_slice(), fmod_prefix.as_slice())
        || chars_eq(class_chars.as_slice(), tk.as_slice())
        || is_enum_name_exec(class_chars.as_slice())
        || chars_eq(class_chars.as_slice(), content_manager.as_slice())
    {
        return false;
    }
    true
}

/// Functions of `class_name` written commented out: variadic ones, the
/// default, copy and move constructors and the destructor (as the name is
/// spelled from the first `:` of the class on), and `fmt::` helpers.
pub open spec fn comments_out(class_name: Seq<char>, name: Seq<char>) -> bool {
    let base = tail_from(class_name, ':');
    ||| contains_seq(name, "..."@)
    ||| starts_with(name, base + "()"@)
    ||| starts_with(name, base + "("@ + class_name + " const&)"@)
    ||| starts_with(name, "$"@ + base + "($"@ + class_name + "&&)"@)
    ||| starts_with(name, "~$"@ + base)
    ||| starts_with(name, "fmt::"@)
}

/// Decides whether a function is written commented out (see `comments_out`).
pub fn should_comment_out_function(class_name: &str, name: &str) -> (b: bool)
    ensures
        b == comments_out(class_name@, name@),
{
    let cls = chars_of(class_name);
    let nm = chars_of(name);
    let base = tail_from_exec(cls.as_slice(), ':');
    let dots = chars_of("...");
    if contains_exec(nm.as_slice(), dots.as_slice()) {
        return true;
    }
    let p1 = cat(base.as_slice(), chars_of("()").as_slice());
    let p2 = cat(
        cat(cat(base.as_slice(), chars_of("(").as_slice()).as_slice(), cls.as_slice()).as_slice(),
        chars_of(" const&)").as_slice(),
    );
    let p3 = cat(
        cat(
            cat(cat(chars_of("$").as_slice(), base.as_slice()).as_slice(), chars_of("($").as_slice()).as_slice(),
            cls.as_slice(),
        ).as_slice(),
        chars_of("&&)").as_slice(),
    );
    let p4 = cat(chars_of("~$").as_slice(), base.as_slice());
    if starts_with_exec(nm.as_slice(), p1.as_slice()) || starts_with_exec(nm.as_slice(), p2.as_slice())
        || starts_with_exec(nm.as_slice(), p3.as_slice()) || starts_with_exec(nm.as_slice(), p4.as_slice())
    {
        return true;
    }
    let fmt = chars_of("fmt::");
    starts_with_exec(nm.as_slice(), fmt.as_slice())
}

/// Functions written `static`: factories (`create(`), every function of
/// `GameToolbox`, and those of the classes named `sharedState()`,
/// `sharedEngine()` or `sharedDecoder()`.
pub open spec fn static_func(class_name: Seq<char>, func_sig: Seq<char>) -> bool {
    ||| starts_with(func_sig, "create("@)
    ||| class_name == "GameToolbox"@
    ||| class_name == "sharedState()"@
    ||| class_name == "sharedEngine()"@
    ||| class_name == "sharedDecoder()"@
}

/// Decides whether a function is static (see `static_func`).
pub fn is_static_func(class_name: &str, func_sig: &str) -> (b: bool)
    ensures
        b == static_func(class_name@, func_sig@),
{
    let sig = chars_of(func_sig);
    let create = chars_of("create(");
    starts_with_exec(sig.as_slice(), create.as_slice())
        || str_eq(class_name, "GameToolbox")
        || str_eq(class_name, "sharedState()")
        || str_eq(class_name, "sharedEngine()")
        || str_eq(class_name, "sharedDecoder()")
}

/// A line without the carriage return of a `\r\n` ending.
pub open spec fn strip_cr(line: Seq<char>) -> Seq<char> {
    if line.len() > 0 && line.last() == '\r' {
        line.drop_last()
    } else {
        line
    }
}

/// The lines of `s` as `str::lines` yields them, `cur` being the text of a
/// line already begun: lines end at `\n` (a `\r` just before it is dropped)
/// and the final line ending is optional.
pub open spec fn lines_from(s: Seq<char>, cur: Seq<char>) -> Seq<Seq<char>>
    decreases s.len(),
{
    if s.len() == 0 {
        if cur.len() == 0 {
            Seq::empty()
        } else {
            seq![cur]
        }
    } else if s[0] == '\n' {
        seq![strip_cr(cur)] + lines_from(s.drop_first(), Seq::empty())
    } else {
        lines_from(s.drop_first(), cur.push(s[0]))
    }
}

/// The lines of `s`.
pub open spec fn lines_of(s: Seq<char>) -> Seq<Seq<char>> {
    lines_from(s, Seq::empty())
}

/// The cleaned lines that are kept as symbols, in order.
pub open spec fn kept_symbol_lines(lines: Seq<Seq<char>>) -> Seq<Seq<char>>
    decreases lines.len(),
{
    if lines.len() == 0 {
        Seq::empty()
    } else {
        let prev = kept_symbol_lines(lines.drop_last());
        let cleaned = apply_rewrites(lines.last(), CLEANUP_RULES@);
        if old_keeps(cleaned) {
            prev.push(cleaned)
        } else {
            prev
        }
    }
}

/// Splits `text` into its lines (see `lines_of`).
pub fn split_lines(text: &str) -> (lines: Vec<String>)
    ensures
        strings_view(lines@) == lines_of(text@),
{
    let s = chars_of(text);
    let n = s.len();
    let mut lines: Vec<String> = Vec::new();
    let mut cur: Vec<char> = Vec::new();
    assert(s@.skip(0) == s@);
    assert(strings_view(lines@) + lines_from(s@, cur@) == lines_from(s@, cur@));
    for i in 0..n
        invariant
            n == s@.len(),
            s@ == text@,
            strings_view(lines@) + lines_from(s@.skip(i as int), cur@) == lines_of(text@),
    {
        assert(s@.skip(i as int).drop_first() == s@.skip(i + 1));
        let c = s[i];
        if c == '\n' {
            let len = cur.len();
            let line = if len > 0 && cur[len - 1] == '\r' {
                slice_chars(cur.as_slice(), 0, len - 1)
            } else {
                slice_chars(cur.as_slice(), 0, len)
            };
            proof {
                assert(cur@.subrange(0, len as int) == cur@);
                if len > 0 {
                    assert(cur@.subrange(0, len - 1) == cur@.drop_last());
                }
            }
            let ghost before = lines@;
            lines.push(string_of(line.as_slice()));
            assert(strings_view(lines@) == strings_view(before).push(strip_cr(cur@)));
            assert(seq![strip_cr(cur@)] + lines_from(s@.skip(i + 1), Seq::empty())
                == lines_from(s@.skip(i as int), cur@));
            assert(strings_view(lines@) + lines_from(s@.skip(i + 1), Seq::empty())
                == strings_view(before) + lines_from(s@.skip(i as int), cur@));
            cur = Vec::new();
        } else {
            cur.push(c);
        }
    }
    assert(s@.skip(n as int) == Seq::<char>::empty());
    if cur.len() > 0 {
        let ghost before = lines@;
        lines.push(string_of(cur.as_slice()));
        assert(strings_view(lines@) == strings_view(before).push(cur@));
    }
    lines
}

/// The symbols of an Android symbol listing (one per line): each line
/// cleaned by `clean_function_sig`, those that `old_should_keep_symbol`
/// keeps, in order.
pub fn old_symbol_lines(text: &str) -> (symbols: Vec<String>)
    ensures
        strings_view(symbols@) == kept_symbol_lines(lines_of(text@)),
{
    let lines = split_lines(text);
    let n = lines.len();
    let mut symbols: Vec<String> = Vec::new();
    for i in 0..n
        invariant
            n == lines@.len(),
            strings_view(lines@) == lines_of(text@),
            strings_view(symbols@) == kept_symbol_lines(strings_view(lines@).take(i as int)),
    {
        let ghost all = strings_view(lines@);
        assert(all.take(i + 1).drop_last() == all.take(i as int));
        assert(all.take(i + 1).last() == lines@[i as int]@);
        let cleaned = clean_function_sig(lines[i].clone());
        if old_should_keep_symbol(cleaned.as_str()) {
            let ghost before = symbols@;
            symbols.push(cleaned);
            assert(strings_view(symbols@) == strings_view(before).push(cleaned@));
        }
    }
    assert(strings_view(lines@).take(n as int) == strings_view(lines@));
    symbols
}

/// What `serde_json::from_str` makes of `text` read as a JSON object whose
/// values are arrays of arrays of strings (`None` where it fails): the
/// entries, by key in `BTreeMap` order, a later duplicate key winning.
pub uninterp spec fn vtables_json_result(text: Seq<char>) -> Option<Seq<(Seq<char>, Seq<Seq<Seq<char>>>)>>;

#[verifier::external_type_specification]
#[verifier::external_body]
pub struct ExJsonError(serde_json::Error);

/// Calls `serde_json::from_str` for a `BTreeMap<String, Vec<Vec<String>>>`
/// and lists its entries; claims that the entries are
/// `vtables_json_result` of the text, that it fails exactly when that is
/// `None`, and that the entries come in strictly increasing order of their
/// keys (a map holds each key once, and `BTreeMap::into_iter` yields its
/// entries sorted by key, under `String`'s order of character codes).
#[verifier::external_body]
fn vtables_from_json(text: &str) -> (r: Result<Vec<(String, Vec<Vec<String>>)>, serde_json::Error>)
    ensures
        match r {
            Ok(v) => {
                &&& vtables_json_result(text@) == Some(crate::logic::vtables_view(v@))
                &&& lex_sorted(keys_of(crate::logic::vtables_view(v@)))
            },
            Err(_) => vtables_json_result(text@) == None::<Seq<(Seq<char>, Seq<Seq<Seq<char>>>)>>,
        },
{
    serde_json::from_str::<std::collections::BTreeMap<String, Vec<Vec<String>>>>(text)
        .map(|m| m.into_iter().collect())
}

/// Why a vtables dump was refused.
#[derive(Debug, Clone, Copy, PartialEq, Eq)]
pub enum VtablesError {
    /// Not a JSON object mapping class names to arrays of arrays of strings.
    NotVtablesJson,
}

/// The vtables of a Ghidra dump: a JSON object mapping each class name to
/// its tables, each an array of signatures.
pub fn parse_vtables_json(text: &str) -> (r: Result<Vec<(String, Vec<Vec<String>>)>, VtablesError>)
    ensures
        match r {
            Ok(v) => {
                &&& vtables_json_result(text@) == Some(crate::logic::vtables_view(v@))
                &&& lex_sorted(keys_of(crate::logic::vtables_view(v@)))
                &&& keys_of(crate::logic::vtables_view(v@)).no_duplicates()
            },
            Err(e) => e == VtablesError::NotVtablesJson && vtables_json_result(text@) is None,
        },
{
    match vtables_from_json(text) {
        Ok(v) => {
            proof { lemma_lex_sorted_no_duplicates(keys_of(crate::logic::vtables_view(v@))); }
            Ok(v)
        },
        Err(_) => Err(VtablesError::NotVtablesJson),
    }
}

} // verus!
