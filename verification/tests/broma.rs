use geode_bindings::logic::{Group, OldSignatureResults, SignatureResults};
use geode_bindings::old_versions::{collect_old_signatures, vtables_path_or_default};
use geode_bindings::writer::BromaWriter;
use geode_bindings::parsing_logic::{old_symbol_lines, parse_vtables_json};

fn s(x: &str) -> String {
    x.to_string()
}

#[test]
fn writer_appends_in_order() {
    let mut bw = BromaWriter::new();
    assert_eq!(bw.code, "// clang-format off\n\n\n");
    bw.declare_class("A");
    bw.write("    x;\n");
    bw.close_class_declaration();
    assert_eq!(bw.code, "// clang-format off\n\n\n[[link(android)]]\nclass A {\n    x;\n}\n\n");
}

fn sample() -> OldSignatureResults {
    let mut osr = OldSignatureResults::new();
    osr.add_func_to_class("A", "f()");
    osr.add_func_to_class("B", "g()");
    osr.add_func_to_class("A", "h()");
    osr.set_vtables(vec![(s("A"), vec![vec![s("h()"), s("f()")]])]);
    osr
}

#[test]
fn vtable_slots() {
    let osr = sample();
    assert_eq!(osr.vtable_index_for_func("A", "f()"), Some(1));
    assert_eq!(osr.vtable_index_for_func("A", "h()"), Some(0));
    assert_eq!(osr.vtable_index_for_func("A", "zz()"), None);
    assert_eq!(osr.vtable_index_for_func("B", "g()"), None);
    assert!(osr.is_virtual("A", "h()"));
    assert!(!osr.is_virtual("B", "g()"));
}

#[test]
fn groups_of_functions() {
    let osr = sample();
    assert!(matches!(osr.group_for_function("A", "A()"), Group::INDEX(-3)));
    assert!(matches!(osr.group_for_function("A", "~A()"), Group::INDEX(-3)));
    assert!(matches!(osr.group_for_function("A", "create()"), Group::INDEX(-2)));
    assert!(matches!(osr.group_for_function("A", "f()"), Group::VTINDEX(1)));
    assert!(matches!(osr.group_for_function("A", "x()"), Group::INDEX(-2)));
}

#[test]
fn reorder_groups_orders_and_sorts() {
    let osr = sample();
    let funcs = vec![s("A()"), s("f()"), s("x()"), s("h()"), s("~A()"), s("A()")];
    let r = osr.reorder_funcs("A", &funcs);
    assert_eq!(
        r,
        vec![
            (-3, vec![(0, vec![s("A()"), s("~A()")]), (1, vec![s("f()")])]),
            (-2, vec![(0, vec![s("h()")]), (1, vec![s("x()")])]),
        ]
    );
}

#[test]
fn guesses_by_kind() {
    let mut osr = OldSignatureResults::new();
    osr.add_func_to_class("A", "setValue(int)");
    let g = |n: &str| osr.best_effort_guess("A", n);
    assert_eq!(g("A()"), Some(s("A()")));
    assert_eq!(g("~A()"), Some(s("~A()")));
    assert_eq!(
        g("ccTouchBegan(cocos2d::CCTouch*, cocos2d::CCEvent*)"),
        Some(s("void ccTouchBegan(cocos2d::CCTouch* pTouch, cocos2d::CCEvent* pEvent)"))
    );
    assert_eq!(g("create()"), Some(s("A* create()")));
    assert_eq!(g("init()"), Some(s("bool init()")));
    assert_eq!(g("onClose(cocos2d::CCObject*)"), Some(s("void onClose(cocos2d::CCObject* sender)")));
    assert_eq!(g("setValue(int)"), Some(s("void setValue(int)")));
    assert_eq!(g("isOpen()"), Some(s("bool isOpen()")));
    assert_eq!(g("getValue()"), Some(s("int getValue()")));
    assert_eq!(g("getOther()"), Some(s("TodoReturn getOther()")));
    assert_eq!(g("foo()"), Some(s("TodoReturn foo()")));
}

#[test]
fn getter_guess_keeps_dollar_signs() {
    let mut osr = OldSignatureResults::new();
    osr.add_func_to_class("A", "setValue(int)");
    // `$1` in the getter's name is not read as a group of the setter pattern
    assert_eq!(osr.best_effort_guess("A", "getValue($1)"), Some(s("int getValue($1)")));
    osr.add_func_to_class("A", "setValue$(int)");
    // a setter the argument pattern does not match is handed back as it is
    assert_eq!(osr.best_effort_guess("A", "getValue$()"), Some(s("setValue$(int)")));
}

#[test]
fn getter_of_unknown_class_has_no_guess() {
    let osr = OldSignatureResults::new();
    assert_eq!(osr.best_effort_guess("Z", "getX()"), None);
    let mut osr = OldSignatureResults::new();
    osr.add_func_to_class("Z", "f()");
    assert_eq!(osr.best_effort_guess("Z", "getX"), None);
}

#[test]
fn writes_a_class() {
    let mut osr = OldSignatureResults::new();
    osr.add_func_to_class("A", "A()");
    osr.add_func_to_class("A", "f()");
    let bw = osr.write().unwrap();
    assert_eq!(
        bw.code,
        "// clang-format off\n\n\n[[link(android)]]\nclass A {\n    // A();\n\n    TodoReturn f();\n\n}\n\n"
    );
}

#[test]
fn writes_virtual_static_and_placeholders() {
    // the placeholder takes the group last set (that of `create()`) and slot 0
    let mut osr = OldSignatureResults::new();
    osr.add_func_to_class("A", "create()");
    osr.add_func_to_class("A", "pure_virtual_3");
    osr.set_vtables(vec![(s("A"), vec![vec![s("pure_virtual_3")]])]);
    let bw = osr.write().unwrap();
    assert_eq!(
        bw.code,
        "// clang-format off\n\n\n[[link(android)]]\nclass A {\n    static A* create();\n    virtual TodoReturn pure_virtual_3{} // TODO: figure out what function this is\n\n}\n\n"
    );
}

#[test]
fn write_refuses_unguessable_getters() {
    let mut osr = OldSignatureResults::new();
    osr.add_func_to_class("A", "getX");
    assert!(osr.write().is_none());
}

#[test]
fn collects_classes_and_pure_virtuals() {
    let symbols = vec![
        s("GameManager::init()"),
        s("GameManager::getX()"),
        s("cocos2d::CCNode::init()"),
        s("SearchType::x()"),
        s("A::B::f()"),
    ];
    let vtables = vec![
        (s("GameManager"), vec![vec![s("pure_virtual_a"), s("init()"), s("pure_virtual_a")], vec![s("pure_virtual_b")]]),
        (s("cocos2d"), vec![vec![s("pure_virtual_c")]]),
    ];
    let mut osr = collect_old_signatures(&symbols, vtables).unwrap();
    assert_eq!(osr.vtable_index_for_func("GameManager", "init()"), Some(1));
    let bw = osr.write().unwrap();
    assert!(bw.code.contains("class GameManager {\n"));
    assert!(bw.code.contains("    virtual bool init();\n"));
    assert!(bw.code.contains("pure_virtual_a{}"));
    assert!(bw.code.contains("pure_virtual_b{}"));
    assert!(!bw.code.contains("pure_virtual_c"));
    assert!(bw.code.contains("class A::B {\n"));
    assert!(!bw.code.contains("class cocos2d"));
    assert!(!bw.code.contains("SearchType"));
}

#[test]
fn default_vtables_path() {
    assert_eq!(vtables_path_or_default(None), (s("vtables.json"), true));
    assert_eq!(vtables_path_or_default(Some(s("x.json"))), (s("x.json"), false));
}

#[test]
fn added_functions_stay_with_their_class() {
    let mut osr = OldSignatureResults::new();
    osr.add_func_to_class("A", "f()");
    osr.add_func_to_class("B", "g()");
    osr.add_func_to_class("A", "h()");
    let bw = osr.write().unwrap();
    assert_eq!(
        bw.code,
        "// clang-format off\n\n\n[[link(android)]]\nclass A {\n    TodoReturn f();\n    TodoReturn h();\n\n}\n\n[[link(android)]]\nclass B {\n    TodoReturn g();\n\n}\n\n"
    );
}

#[test]
fn every_function_listed_once() {
    let osr = OldSignatureResults::new();
    let funcs = vec![s("b()"), s("a()"), s("b()"), s("~X()"), s("create()")];
    let r = osr.reorder_funcs("X", &funcs);
    let mut listed: Vec<String> = Vec::new();
    for (_, orders) in &r {
        for (_, set) in orders {
            for f in set {
                listed.push(f.clone());
            }
        }
    }
    listed.sort();
    assert_eq!(listed, vec![s("a()"), s("b()"), s("create()"), s("~X()")]);
}

#[test]
fn placeholders_added_once() {
    let vtables = vec![(s("Layer"), vec![vec![s("pure_virtual_a"), s("pure_virtual_a")], vec![s("pure_virtual_a"), s("x()")]])];
    let mut osr = collect_old_signatures(&Vec::new(), vtables).unwrap();
    let bw = osr.write().unwrap();
    assert_eq!(bw.code.matches("pure_virtual_a").count(), 1);
    assert!(!bw.code.contains("x()"));
}

#[test]
fn listing_with_empty_vtables_writes_its_class() {
    let symbols = old_symbol_lines("GameManager::init()\n");
    let vtables = parse_vtables_json("{}").unwrap();
    let mut osr = collect_old_signatures(&symbols, vtables).unwrap();
    let bw = osr.write().unwrap();
    assert_eq!(bw.code, "// clang-format off\n\n\n[[link(android)]]\nclass GameManager {\n    bool init();\n\n}\n\n");
}
