use swc_remapper::{ClassMap, Config, Expr, MemberProp, Transform, ROOT_NAME};

const UNRESOLVED: u32 = 1;
const LOCAL: u32 = 7;

fn leaf(s: &str) -> ClassMap {
    ClassMap::Str(s.to_string())
}

fn node(entries: Vec<(&str, ClassMap)>) -> ClassMap {
    ClassMap::Node(entries.into_iter().map(|(k, v)| (k.to_string(), v)).collect())
}

fn transform(classmap: ClassMap) -> Transform {
    Transform { config: Config { classmap }, unresolved_ctx: UNRESOLVED }
}

fn ident(sym: &str, ctxt: u32) -> Expr {
    Expr::Ident { sym: sym.to_string(), ctxt }
}

fn member(obj: Expr, name: &str) -> Expr {
    Expr::Member { obj: Box::new(obj), prop: MemberProp::Ident(name.to_string()) }
}

fn chain(ctxt: u32, names: &[&str]) -> Expr {
    names.iter().fold(ident(ROOT_NAME, ctxt), |e, n| member(e, n))
}

fn literal(r: Option<Expr>) -> Option<String> {
    match r {
        Some(Expr::Lit(s)) => Some(s),
        Some(other) => panic!("not a literal: {:?}", other),
        None => None,
    }
}

fn flat() -> Transform {
    transform(node(vec![("a", leaf("b"))]))
}

fn nested() -> Transform {
    transform(node(vec![("a", node(vec![("b", leaf("c"))]))]))
}

#[test]
fn leaf_chain_becomes_literal() {
    let r = flat().apply_classmap(&chain(UNRESOLVED, &["a"]));
    assert_eq!(literal(r), Some("b".to_string()));
}

#[test]
fn chain_past_leaf_is_kept() {
    assert!(flat().apply_classmap(&chain(UNRESOLVED, &["a", "c"])).is_none());
}

#[test]
fn unknown_key_is_kept() {
    assert!(flat().apply_classmap(&chain(UNRESOLVED, &["z"])).is_none());
}

#[test]
fn shadowed_root_is_kept() {
    assert!(flat().apply_classmap(&chain(LOCAL, &["a"])).is_none());
}

#[test]
fn chain_inside_call_is_kept() {
    let call = Expr::Call { callee: Box::new(ident("foo", UNRESOLVED)), args: vec![chain(UNRESOLVED, &["a"])] };
    assert!(flat().apply_classmap(&call).is_none());
}

#[test]
fn chain_inside_binary_is_kept() {
    let bin = Expr::Bin { left: Box::new(chain(UNRESOLVED, &["a"])), right: Box::new(Expr::Lit("x".to_string())) };
    assert!(flat().apply_classmap(&bin).is_none());
}

#[test]
fn nested_leaf_becomes_literal() {
    let r = nested().apply_classmap(&chain(UNRESOLVED, &["a", "b"]));
    assert_eq!(literal(r), Some("c".to_string()));
}

#[test]
fn chain_to_level_is_kept() {
    assert!(nested().apply_classmap(&chain(UNRESOLVED, &["a"])).is_none());
}

#[test]
fn bare_root_on_level_is_kept() {
    assert!(flat().apply_classmap(&ident(ROOT_NAME, UNRESOLVED)).is_none());
}

#[test]
fn bare_root_on_leaf_table_becomes_literal() {
    let r = transform(leaf("whole")).apply_classmap(&ident(ROOT_NAME, UNRESOLVED));
    assert_eq!(literal(r), Some("whole".to_string()));
}

#[test]
fn other_root_name_is_kept() {
    let e = member(ident("classmap", UNRESOLVED), "a");
    assert!(flat().apply_classmap(&e).is_none());
}

#[test]
fn computed_property_breaks_chain() {
    let e = Expr::Member { obj: Box::new(ident(ROOT_NAME, UNRESOLVED)), prop: MemberProp::Other };
    assert!(flat().apply_classmap(&e).is_none());
    let deeper = member(e, "a");
    assert!(flat().apply_classmap(&deeper).is_none());
}

#[test]
fn chain_on_call_result_is_kept() {
    let call = Expr::Call { callee: Box::new(ident(ROOT_NAME, UNRESOLVED)), args: vec![] };
    assert!(flat().apply_classmap(&member(call, "a")).is_none());
}

#[test]
fn replacement_is_never_rewritten_again() {
    let t = flat();
    let once = t.apply_classmap(&chain(UNRESOLVED, &["a"])).expect("first pass rewrites");
    assert!(t.apply_classmap(&once).is_none());
}

#[test]
fn literal_equal_to_root_name_is_kept() {
    assert!(flat().apply_classmap(&Expr::Lit(ROOT_NAME.to_string())).is_none());
}

#[test]
fn deep_chain_resolves_in_source_order() {
    let t = transform(node(vec![
        ("x", node(vec![("y", node(vec![("z", leaf("xyz"))])), ("z", leaf("wrong"))])),
        ("z", node(vec![("y", node(vec![("x", leaf("zyx"))]))])),
    ]));
    assert_eq!(literal(t.apply_classmap(&chain(UNRESOLVED, &["x", "y", "z"]))), Some("xyz".to_string()));
    assert_eq!(literal(t.apply_classmap(&chain(UNRESOLVED, &["z", "y", "x"]))), Some("zyx".to_string()));
    assert!(t.apply_classmap(&chain(UNRESOLVED, &["x", "z", "y"])).is_none());
}

#[test]
fn empty_table_resolves_nothing() {
    let t = transform(ClassMap::default());
    assert!(t.apply_classmap(&chain(UNRESOLVED, &["a"])).is_none());
    assert!(t.apply_classmap(&ident(ROOT_NAME, UNRESOLVED)).is_none());
}

#[test]
fn default_table_is_an_empty_level() {
    assert!(matches!(ClassMap::default(), ClassMap::Node(entries) if entries.is_empty()));
}

#[test]
fn get_finds_named_entry() {
    let table = node(vec![("a", leaf("b")), ("c", leaf("d"))]);
    assert!(matches!(table.get(&"c".to_string()), Some(ClassMap::Str(s)) if s == "d"));
    assert!(table.get(&"e".to_string()).is_none());
}

#[test]
fn get_on_leaf_finds_nothing() {
    assert!(leaf("a").get(&"a".to_string()).is_none());
}
