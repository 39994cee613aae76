use geode_bindings::parsing_logic::{
    is_static_func, new_should_keep_symbol, old_should_keep_symbol, old_symbol_lines, parse_vtables_json,
    should_comment_out_function, split_lines, VtablesError,
};
use geode_bindings::re::clean_function_sig;

#[test]
fn old_keeps_plain_members() {
    assert!(old_should_keep_symbol("GameManager::init()"));
    assert!(old_should_keep_symbol("PlayLayer::update(float)"));
}

#[test]
fn old_drops_non_members_and_metadata() {
    assert!(!old_should_keep_symbol("noseparator"));
    assert!(!old_should_keep_symbol("typeinfo for GameManager::x"));
    assert!(!old_should_keep_symbol("GameManager::guard variable"));
}

#[test]
fn old_drops_library_and_enum_classes() {
    assert!(!old_should_keep_symbol("cocos2d::CCNode::init()"));
    assert!(!old_should_keep_symbol("fmt::format()"));
    assert!(!old_should_keep_symbol("SearchType::x()"));
    assert!(!old_should_keep_symbol("Speed::x()"));
    assert!(!old_should_keep_symbol("std::string::size()"));
    assert!(!old_should_keep_symbol("tkFoo::bar()"));
    assert!(!old_should_keep_symbol("pugi::xml_node::x()"));
}

#[test]
fn new_keep_rules() {
    assert!(new_should_keep_symbol("GameManager::init()"));
    assert!(!new_should_keep_symbol("FMOD_thing::x()"));
    assert!(!new_should_keep_symbol("typeinfo for A::B"));
    assert!(!new_should_keep_symbol("plain"));
    assert!(!new_should_keep_symbol("cocos2d::CCNode::init()"));
    assert!(!new_should_keep_symbol("FMOD::System::init()"));
    assert!(!new_should_keep_symbol("SearchType::foo()"));
    assert!(!new_should_keep_symbol("tk::x()"));
    assert!(!new_should_keep_symbol("CCContentManager::x()"));
    assert!(!new_should_keep_symbol("rtsha1::calc()"));
    assert!(new_should_keep_symbol("PlayLayer::update(float)"));
}

#[test]
fn comment_out_rules() {
    assert!(should_comment_out_function("GameManager", "GameManager()"));
    assert!(!should_comment_out_function("GameManager", "init()"));
    assert!(should_comment_out_function("A", "f(...)"));
    assert!(should_comment_out_function("A", "fmt::x"));
    assert!(should_comment_out_function("A", "~$A"));
    assert!(!should_comment_out_function("A", "~A()"));
    assert!(should_comment_out_function("A", "A(A const&)"));
    assert!(should_comment_out_function("A", "$A($A&&)"));
    assert!(should_comment_out_function("ns::A", "::A()"));
}

#[test]
fn static_rules() {
    assert!(is_static_func("GameManager", "create()"));
    assert!(is_static_func("GameToolbox", "x()"));
    assert!(is_static_func("sharedState()", "x"));
    assert!(!is_static_func("A", "x()"));
    assert!(!is_static_func("A", "sharedState()"));
}

#[test]
fn cleaning_drops_qualifiers_and_conventions() {
    assert_eq!(
        clean_function_sig("public: void __thiscall GameManager::init(void)".to_string()),
        "void GameManager::init()"
    );
}

#[test]
fn cleaning_drops_class_keyword_and_pointer_space() {
    assert_eq!(
        clean_function_sig("MenuLayer::onPlay(class cocos2d::CCObject *)".to_string()),
        "MenuLayer::onPlay(cocos2d::CCObject*)"
    );
}

#[test]
fn cleaning_spaces_commas_and_references() {
    assert_eq!(clean_function_sig("GameManager::foo(int &,float)".to_string()), "GameManager::foo(int&, float)");
    assert_eq!(clean_function_sig("A::f(int, float)".to_string()), "A::f(int, float)");
}

#[test]
fn cleaning_spaces_const_qualifier() {
    assert_eq!(
        clean_function_sig("public: int __thiscall GameManager::getValue(void)const ".to_string()),
        "int GameManager::getValue() const"
    );
}

#[test]
fn cleaning_names_gd_strings() {
    assert_eq!(
        clean_function_sig(
            "GameManager::setName(std::basic_string<char, std::char_traits<char>, std::allocator<char> >)".to_string()
        ),
        "GameManager::setName(gd::string)"
    );
    assert_eq!(clean_function_sig("A::f(std::string)".to_string()), "A::f(gd::string)");
}

#[test]
fn cleaning_keeps_clean_signatures() {
    assert_eq!(clean_function_sig("GameManager::init()".to_string()), "GameManager::init()");
    assert_eq!(clean_function_sig("foo".to_string()), "foo");
}

#[test]
fn lines_are_split_like_str_lines() {
    assert_eq!(split_lines("a\r\nb\n\nc\r"), vec!["a", "b", "", "c\r"]);
    assert_eq!(split_lines(""), Vec::<String>::new());
    assert_eq!(split_lines("x\n"), vec!["x"]);
    assert_eq!(split_lines("x"), vec!["x"]);
}

#[test]
fn cleaned_listing_keeps_members() {
    assert_eq!(
        old_symbol_lines("GameManager::init()\nPlayLayer::update(float)\n"),
        vec!["GameManager::init()".to_string(), "PlayLayer::update(float)".to_string()]
    );
    assert_eq!(old_symbol_lines("cocos2d::CCNode::init()\nplain\n"), Vec::<String>::new());
}

#[test]
fn vtables_json_is_read_by_key() {
    let v = parse_vtables_json("{\"B\": [[\"x\"]], \"A\": [[\"f()\", \"pure_virtual_1\"], []]}").unwrap();
    assert_eq!(
        v,
        vec![
            ("A".to_string(), vec![vec!["f()".to_string(), "pure_virtual_1".to_string()], vec![]]),
            ("B".to_string(), vec![vec!["x".to_string()]]),
        ]
    );
}

#[test]
fn vtables_json_rejects_other_shapes() {
    assert_eq!(parse_vtables_json("[1]"), Err(VtablesError::NotVtablesJson));
    assert_eq!(parse_vtables_json("{\"A\": [1]}"), Err(VtablesError::NotVtablesJson));
    assert_eq!(parse_vtables_json("not json"), Err(VtablesError::NotVtablesJson));
}

#[test]
fn lines_hold_no_line_break() {
    for line in split_lines("one\ntwo\r\n\nthree") {
        assert!(!line.contains('\n'));
    }
}

#[test]
fn vtables_json_keys_come_once_and_sorted() {
    let v = parse_vtables_json("{\"B\": [], \"A\": [], \"B\": [[\"x\"]]}").unwrap();
    assert_eq!(v, vec![("A".to_string(), vec![]), ("B".to_string(), vec![vec!["x".to_string()]])]);
}
