//! The regular expressions of the generator, and the clean-up of demangled
//! function signatures into the spelling that broma files use.

use vstd::prelude::*;
use crate::matching::{
    regex_is_match, regex_is_match_result, regex_replace_all, regex_replace_all_result,
    regex_replace_first, regex_replace_first_result,
};

verus! {

/// `class::function(args)`: group 1 is the class path, the last group the
/// function with its argument list.
pub const FILTER_FUNCTIONS: &'static str = r"((?:cocos2d::)?(\w+::)*\w+)::([\w~]+\(.*\))";

/// Symbols that are not functions of a class.
pub const TYPEINFO_VTABLE_ETC: &'static str = r"(?:typeinfo|vtable|thunk|guard variable)";

/// Namespaces of libraries bundled into the game (1.8 and older).
pub const OLD_JNI_INTERALS_CHECK: &'static str = r#"^(?:_JNIEnv|internal|tinyxml2|cocos2d|ObjectDecoder|ObjectDecoderDelegate|pugi|__cxx|__gnu_cxx|std|llvm|tk|xml_|MD5)"#;

/// Namespaces of libraries bundled into the game (1.9 and newer).
pub const NEW_JNI_INTERNALS_CHECK: &'static str = r#"^(?:_JNIEnv|internal|tinyxml2|cocos2d|DS_Dictionary|ObjectDecoder|ObjectDecoderDelegate|pugi|__cxx|__gnu_cxx|std|fmt|llvm|tk|xml_|MD5|rtsha1)"#;

/// Like `FILTER_FUNCTIONS`, without the optional `cocos2d::` prefix.
pub const SYMBOLS_FILTER: &'static str = r#"((\w+::)*\w+)::([\w~]+\(.*\))"#;

/// Menu callbacks `onX(cocos2d::CCObject*)`.
pub const ON_CCOBJECT: &'static str = r#"^on[\w]+\(cocos2d::CCObject\*\)"#;

/// Setters.
pub const SET_ATTR: &'static str = r#"^set[A-Z]"#;

/// Boolean queries.
pub const IS_ATTR: &'static str = r#"^is[A-Z]"#;

/// Getters.
pub const GET_ATTR: &'static str = r#"^get[A-Z]"#;

/// The argument of a setter: group 1 is the type of its single parameter.
pub const SETTER_ARGUMENT: &'static str = r#"set[A-Z]\w+\(([^\,\)]+)\)"#;

/// The rewrites applied, in order, by `clean_function_sig`: each pattern is
/// replaced by its template (`${n}` stands for group `n`), everywhere when
/// the flag is set, else at its first match only.
///
/// These are the rules of `cleanFunctionSig`: calling conventions, access
/// qualifiers and `enum `/`class `/`struct ` are dropped, `(void)` becomes
/// `()`, spaces before `&` and `*` go, `)const ` becomes `) const`, a comma
/// gets a space after it unless whitespace follows already (a space after
/// every comma, then taken back where whitespace followed), and std types
/// are spelled with their `gd::` and cocos2d names.
pub const CLEANUP_RULES: [(&'static str, &'static str, bool); 30] = [
    ("__thiscall |__cdecl ", "", true),
    ("public: |private: |protected: ", "", true),
    ("enum |class |struct ", "", true),
    (r#"\(void\)"#, "()", false),
    (" &", "&", true),
    (r" \*", "*", true),
    (r#"\)const "#, ") const", true),
    (",", ", ", true),
    (r#", (\s)"#, ",${1}", true),
    (r#"std::basic_string<char, std::char_traits<char>, std::allocator<char> ?>"#, "gd::string", true),
    (r#"std::string"#, "gd::string", true),
    (r#"std::set<(.*?), std::less<(?:.*?)>, std::allocator<(?:.*?)> ?>"#, "gd::set<${1}>", true),
    (r#"std::vector<(.*?), std::allocator<(.*?)> ?>"#, "gd::vector<${1}>", true),
    (r#"std::_Tree_const_iterator<std::_Tree_val<std::_Tree_simple_types<cocos2d::CCObject\*> ?> ?>"#, "cocos2d::CCSetIterator", true),
    (r#"std::map<(.*?), (.*?), std::less<(?:.*?)>, std::allocator<std::pair<(?:.*?), (?:.*?)> ?> ?>"#, "gd::map<${1}, ${2}>", true),
    (r#"std::unordered_map<(.*?), std::pair<double, double>, .*?> ?> ?> ?>"#, "gd::unordered_map<${1}, gd::pair<double, double>>", true),
    (r#"std::unordered_map<(.*?), (.*?), .*?> ?> ?>"#, "gd::unordered_map<${1}, ${2}>", true),
    (r#"unsinged long long"#, "uint64_t", true),
    (r#"void \(cocos2d::CCObject::\*\)\(cocos2d::CCObject\*\)"#, "cocos2d::SEL_MenuHandler", true),
    (r#"void \(cocos2d::CCObject::\*\)\(\)"#, "cocos2d::SEL_CallFunc", true),
    (r#"void \(cocos2d::CCObject::\*\)\(cocos2d::CCNode\*\)"#, "cocos2d::SEL_CallFuncN", true),
    (r#"void \(cocos2d::CCObject::\*\)\(cocos2d::CCObject\*\)"#, "cocos2d::SEL_CallFuncO", true),
    (r#"void \(cocos2d::CCObject::\*\)\(cocos2d::CCEvent\*\)"#, "cocos2d::SEL_EventHandler", true),
    (r#"int \(cocos2d::CCObject::\*\)\(cocos2d::CCObject\*\)"#, "cocos2d::SEL_Compare", true),
    (r#"void \(cocos2d::CCObject::\*\)\(cocos2d::extension::CCHttpClient\*, cocos2d::extension::CCHttpResponse\*\)"#, "cocos2d::extension::SEL_HttpResponse", true),
    (r#"void \(cocos2d::CCObject::\*\)\(float\)"#, "cocos2d::SEL_SCHEDULE", true),
    (r#"cocos2d::_ccColor3B"#, "cocos2d::ccColor3B", true),
    (r#"cocos2d::_ccColor4B"#, "cocos2d::ccColor4B", true),
    (r#"cocos2d::_ccColor4F"#, "cocos2d::ccColor4F", true),
    (r#"cocos2d::_ccHSVValue"#, "cocos2d::ccHSVValue", true),
];

/// Whether `pattern` compiles and matches somewhere in `text`.
pub open spec fn regex_finds(pattern: Seq<char>, text: Seq<char>) -> bool {
    regex_is_match_result(pattern, text) == Some(true)
}

/// Whether `pattern` matches somewhere in `text` (a pattern that does not
/// compile matches nothing).
pub fn regex_finds_exec(pattern: &str, text: &str) -> (b: bool)
    ensures
        b == regex_finds(pattern@, text@),
{
    match regex_is_match(pattern, text) {
        Some(b) => b,
        None => false,
    }
}

/// One rewrite: every match of `pattern` in `text` replaced by `template`;
/// the text is left alone when the pattern does not compile.
pub open spec fn rewrite_all(text: Seq<char>, pattern: Seq<char>, template: Seq<char>) -> Seq<char> {
    match regex_replace_all_result(pattern, text, template) {
        Some(t) => t,
        None => text,
    }
}

/// `text` with the first match of `pattern` replaced by `template`; left
/// alone when the pattern does not compile.
pub open spec fn rewrite_first(text: Seq<char>, pattern: Seq<char>, template: Seq<char>) -> Seq<char> {
    match regex_replace_first_result(pattern, text, template) {
        Some(t) => t,
        None => text,
    }
}

/// One rule applied to `text`: everywhere, or at the first match only.
pub open spec fn rewrite(text: Seq<char>, rule: (&str, &str, bool)) -> Seq<char> {
    if rule.2 {
        rewrite_all(text, rule.0@, rule.1@)
    } else {
        rewrite_first(text, rule.0@, rule.1@)
    }
}

/// The rewrites of `rules`, applied in order to `text`.
pub open spec fn apply_rewrites(text: Seq<char>, rules: Seq<(&str, &str, bool)>) -> Seq<char>
    decreases rules.len(),
{
    if rules.len() == 0 {
        text
    } else {
        apply_rewrites(rewrite(text, rules[0]), rules.drop_first())
    }
}

/// Applying a prefix of the rules, then the next rule, is applying the
/// longer prefix.
proof fn lemma_apply_rewrites_step(text: Seq<char>, rules: Seq<(&str, &str, bool)>, i: int)
    requires
        0 <= i < rules.len(),
    ensures
        apply_rewrites(text, rules.take(i + 1)) == rewrite(apply_rewrites(text, rules.take(i)), rules[i]),
    decreases i,
{
    let t1 = rewrite(text, rules[0]);
    assert(rules.take(i + 1)[0] == rules[0]);
    assert(apply_rewrites(text, rules.take(i + 1)) == apply_rewrites(t1, rules.take(i + 1).drop_first()));
    if i == 0 {
        assert(rules.take(1).drop_first() =~= Seq::<(&str, &str, bool)>::empty());
        assert(rules.take(0) =~= Seq::<(&str, &str, bool)>::empty());
        assert(apply_rewrites(t1, Seq::<(&str, &str, bool)>::empty()) == t1);
    } else {
        assert(rules.take(i)[0] == rules[0]);
        assert(apply_rewrites(text, rules.take(i)) == apply_rewrites(t1, rules.take(i).drop_first()));
        lemma_apply_rewrites_step(t1, rules.drop_first(), i - 1);
        assert(rules.take(i + 1).drop_first() =~= rules.drop_first().take(i));
        assert(rules.take(i).drop_first() =~= rules.drop_first().take(i - 1));
    }
}

/// Cleans a demangled signature into broma spelling: the rules of
/// `CLEANUP_RULES` are applied, in order.
pub fn clean_function_sig(sig: String) -> (res: String)
    ensures
        res@ == apply_rewrites(sig@, CLEANUP_RULES@),
{
    let mut new_sig = sig;
    let n = CLEANUP_RULES.len();
    for i in 0..n
        invariant
            n == CLEANUP_RULES@.len(),
            new_sig@ == apply_rewrites(sig@, CLEANUP_RULES@.take(i as int)),
    {
        let (pattern, template, everywhere) = CLEANUP_RULES[i];
        proof { lemma_apply_rewrites_step(sig@, CLEANUP_RULES@, i as int); }
        let rewritten = if everywhere {
            regex_replace_all(pattern, new_sig.as_str(), template)
        } else {
            regex_replace_first(pattern, new_sig.as_str(), template)
        };
        match rewritten {
            Some(t) => { new_sig = t; },
            None => {},
        }
    }
    assert(CLEANUP_RULES@.take(n as int) =~= CLEANUP_RULES@);
    new_sig
}

} // verus!
