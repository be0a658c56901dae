use klc_to_xkb::keymap::Keymap;
use klc_to_xkb::output::{CharOrDead, Character, Output};
use klc_to_xkb::reference::split_reference;
use klc_to_xkb::resolve::{resolve, LayoutStore, ResolveError};
use klc_to_xkb::target::{Partial, TargetLayout};

fn lit(a: char, b: char, c: char, d: char) -> Output {
    Output {
        normal: Character { normal: CharOrDead::Literal(a), shift: CharOrDead::Literal(b) },
        altgr: Character { normal: CharOrDead::Literal(c), shift: CharOrDead::Literal(d) },
    }
}

fn partial(name: &str, parent: Option<&str>, keys: Vec<(u32, Output)>) -> Partial {
    let mut p = Partial::new(name.to_string());
    p.parent = parent.map(|s| s.to_string());
    for (k, o) in keys {
        p.overrides.set(k, o);
    }
    p
}

fn document(default_partial: Partial, others: Vec<Partial>) -> TargetLayout {
    TargetLayout { default_partial, partials: others }
}

fn chain_store() -> LayoutStore {
    let mut store = LayoutStore::new();
    store.add(
        "base".to_string(),
        document(
            partial("basic", None, vec![(10, lit('q', 'Q', '\0', '\0')), (11, lit('w', 'W', '\0', '\0'))]),
            vec![],
        ),
    );
    store.add(
        "top".to_string(),
        document(
            partial("basic", Some("base"), vec![]),
            vec![partial("intl", Some("base(basic)"), vec![(11, lit('z', 'Z', '\0', '\0')), (12, lit('x', 'X', '\0', '\0'))])],
        ),
    );
    store
}

#[test]
fn bare_reference_names_basic_part() {
    assert_eq!(split_reference("layout"), ("layout", "basic"));
}

#[test]
fn parenthesized_reference_names_its_part() {
    assert_eq!(split_reference("layout(intl)"), ("layout", "intl"));
    assert_eq!(split_reference("dk(basic)"), ("dk", "basic"));
}

#[test]
fn reference_with_open_paren_last_has_empty_part() {
    assert_eq!(split_reference("abc("), ("abc", ""));
}

#[test]
fn chain_overlays_child_on_parent() {
    let store = chain_store();
    let m = resolve(&store, "top(intl)").ok().unwrap();
    assert_eq!(m.keys(), vec![10, 11, 12]);
    assert_eq!(m.get(10), Some(&lit('q', 'Q', '\0', '\0')));
    assert_eq!(m.get(11), Some(&lit('z', 'Z', '\0', '\0')));
    assert_eq!(m.get(12), Some(&lit('x', 'X', '\0', '\0')));
}

#[test]
fn inherited_keys_not_overridden_stay() {
    let store = chain_store();
    let parent = resolve(&store, "base").ok().unwrap();
    let child = resolve(&store, "top").ok().unwrap();
    for k in parent.keys() {
        assert_eq!(child.get(k), parent.get(k));
    }
}

#[test]
fn resolving_twice_gives_same_mapping() {
    let store = chain_store();
    let a = resolve(&store, "top(intl)").ok().unwrap();
    let b = resolve(&store, "top(intl)").ok().unwrap();
    assert_eq!(a.keys(), b.keys());
    for k in a.keys() {
        assert_eq!(a.get(k), b.get(k));
    }
}

#[test]
fn missing_document_is_not_found() {
    let store = chain_store();
    match resolve(&store, "nowhere(basic)") {
        Err(ResolveError::NotFound(p)) => assert_eq!(p, "nowhere"),
        _ => panic!("expected NotFound"),
    }
}

#[test]
fn missing_parent_document_fails_whole_chain() {
    let mut store = LayoutStore::new();
    store.add("a".to_string(), document(partial("basic", Some("gone"), vec![(1, lit('a', 'A', '\0', '\0'))]), vec![]));
    match resolve(&store, "a") {
        Err(ResolveError::NotFound(p)) => assert_eq!(p, "gone"),
        _ => panic!("expected NotFound"),
    }
}

#[test]
fn missing_part_is_lookup_error() {
    let store = chain_store();
    match resolve(&store, "base(extra)") {
        Err(ResolveError::MissingPartial { path, part }) => {
            assert_eq!(path, "base");
            assert_eq!(part, "extra");
        }
        _ => panic!("expected MissingPartial"),
    }
}

#[test]
fn self_reference_is_cyclic() {
    let mut store = LayoutStore::new();
    store.add("loop".to_string(), document(partial("basic", Some("loop(basic)"), vec![]), vec![]));
    assert!(matches!(resolve(&store, "loop"), Err(ResolveError::Cyclic(_))));
}

#[test]
fn keymap_set_replaces_and_orders() {
    let mut m = Keymap::new();
    m.set(5, lit('a', 'A', '\0', '\0'));
    m.set(2, lit('b', 'B', '\0', '\0'));
    m.set(5, lit('c', 'C', '\0', '\0'));
    assert_eq!(m.keys(), vec![2, 5]);
    assert_eq!(m.get(5), Some(&lit('c', 'C', '\0', '\0')));
    assert_eq!(m.get(7), None);
}
