use klc_to_xkb::convert::{convert, convert_with_baseline, pending_prompts, KeyTable, SourceKeyEntry, SourceLayout};
use klc_to_xkb::deadkey::{classify, classify_trimmed, is_trigger};
use klc_to_xkb::keymap::Keymap;
use klc_to_xkb::output::{CharOrDead, Character, Output};
use klc_to_xkb::resolve::{LayoutStore, ResolveError};
use klc_to_xkb::target::{Partial, TargetLayout};

fn lit(a: char, b: char, c: char, d: char) -> Output {
    Output {
        normal: Character { normal: CharOrDead::Literal(a), shift: CharOrDead::Literal(b) },
        altgr: Character { normal: CharOrDead::Literal(c), shift: CharOrDead::Literal(d) },
    }
}

fn key(n: Option<char>, s: Option<char>, ca: Option<char>, sca: Option<char>) -> SourceKeyEntry {
    SourceKeyEntry { normal: n, shift: s, ctrl_alt: ca, shift_ctrl_alt: sca }
}

fn table() -> KeyTable {
    KeyTable { pairs: vec![(0x10, 24), (0x11, 25), (0x1e, 38)] }
}

fn dk_store(keys: Vec<(u32, Output)>) -> LayoutStore {
    let mut p = Partial::new("basic".to_string());
    for (k, o) in keys {
        p.overrides.set(k, o);
    }
    let mut store = LayoutStore::new();
    store.add("dk".to_string(), TargetLayout { default_partial: p, partials: vec![] });
    store
}

fn source(entries: Vec<(u32, SourceKeyEntry)>, triggers: Vec<char>) -> SourceLayout {
    SourceLayout { name: "My Layout".to_string(), entries, deadkey_triggers: triggers }
}

#[test]
fn non_trigger_stays_literal() {
    assert_eq!(classify('a', &vec!['^'], "caron"), CharOrDead::Literal('a'));
}

#[test]
fn trigger_with_empty_answer_stays_literal() {
    assert_eq!(classify('^', &vec!['^'], ""), CharOrDead::Literal('^'));
    assert_eq!(classify('^', &vec!['^'], "   \n"), CharOrDead::Literal('^'));
}

#[test]
fn trigger_with_answer_becomes_dead_key() {
    assert_eq!(classify('^', &vec!['^'], "caron"), CharOrDead::DeadKey("dead_caron".to_string()));
}

#[test]
fn answer_is_trimmed_before_naming() {
    assert_eq!(classify('^', &vec!['^'], "  circumflex \n"), CharOrDead::DeadKey("dead_circumflex".to_string()));
}

#[test]
fn trimmed_answer_names_dead_key() {
    assert_eq!(classify_trimmed('~', &vec!['~'], "tilde"), CharOrDead::DeadKey("dead_tilde".to_string()));
    assert_eq!(classify_trimmed('~', &vec!['^'], "tilde"), CharOrDead::Literal('~'));
}

#[test]
fn trigger_membership() {
    assert!(is_trigger('^', &vec!['`', '^']));
    assert!(!is_trigger('a', &vec!['`', '^']));
    assert!(!is_trigger('a', &vec![]));
}

#[test]
fn single_key_end_to_end() {
    let src = source(vec![(0x1e, key(Some('a'), Some('A'), None, None))], vec![]);
    let store = dk_store(vec![(24, lit('q', 'Q', '\0', '\0'))]);
    let out = convert(&src, &table(), &store, &vec![]).ok().unwrap();
    let p = &out.default_partial;
    assert_eq!(p.name, "basic");
    assert_eq!(p.parent, Some("dk(basic)".to_string()));
    assert_eq!(p.display_name, Some("My Layout".to_string()));
    assert!(out.partials.is_empty());
    assert_eq!(p.overrides.keys(), vec![38]);
    assert_eq!(p.overrides.get(38), Some(&lit('a', 'A', '\0', '\0')));
}

#[test]
fn output_equal_to_baseline_is_not_emitted() {
    let src = source(
        vec![(0x10, key(Some('q'), Some('Q'), None, None)), (0x11, key(Some('w'), Some('W'), None, None))],
        vec![],
    );
    let mut baseline = Keymap::new();
    baseline.set(24, lit('q', 'Q', '\0', '\0'));
    baseline.set(25, lit('w', 'W', '@', '\0'));
    let out = convert_with_baseline(&src, &table(), &baseline, &vec![]);
    assert_eq!(out.default_partial.overrides.keys(), vec![25]);
    assert_eq!(out.default_partial.overrides.get(25), Some(&lit('w', 'W', '\0', '\0')));
}

#[test]
fn superset_of_baseline_is_still_emitted() {
    let src = source(vec![(0x10, key(Some('q'), Some('Q'), Some('@'), None))], vec![]);
    let mut baseline = Keymap::new();
    baseline.set(24, lit('q', 'Q', '\0', '\0'));
    let out = convert_with_baseline(&src, &table(), &baseline, &vec![]);
    assert_eq!(out.default_partial.overrides.get(24), Some(&lit('q', 'Q', '@', '\0')));
}

#[test]
fn unmapped_scan_code_is_skipped() {
    let src = source(
        vec![
            (0x10, key(Some('q'), None, None, None)),
            (0x99, key(Some('^'), Some('z'), None, None)),
            (0x11, key(Some('w'), None, None, None)),
        ],
        vec!['^'],
    );
    let out = convert_with_baseline(&src, &table(), &Keymap::new(), &vec![]);
    assert_eq!(out.default_partial.overrides.keys(), vec![24, 25]);
    assert_eq!(out.default_partial.overrides.get(25), Some(&lit('w', '\0', '\0', '\0')));
    assert!(pending_prompts(&src, &table()).is_empty());
}

#[test]
fn prompts_follow_slot_order() {
    let src = source(
        vec![(0x10, key(Some('^'), Some('`'), Some('^'), None)), (0x11, key(Some('x'), None, None, Some('`')))],
        vec!['^', '`'],
    );
    assert_eq!(pending_prompts(&src, &table()), vec!['^', '`', '^', '`']);
}

#[test]
fn answers_are_consumed_in_prompt_order() {
    let src = source(
        vec![(0x10, key(Some('^'), Some('`'), Some('^'), None)), (0x11, key(Some('x'), None, None, Some('`')))],
        vec!['^', '`'],
    );
    let answers = vec!["circumflex".to_string(), " ".to_string(), "caron".to_string()];
    let out = convert_with_baseline(&src, &table(), &Keymap::new(), &answers);
    let first = out.default_partial.overrides.get(24).unwrap();
    assert_eq!(first.normal.normal, CharOrDead::DeadKey("dead_circumflex".to_string()));
    assert_eq!(first.normal.shift, CharOrDead::Literal('`'));
    assert_eq!(first.altgr.normal, CharOrDead::DeadKey("dead_caron".to_string()));
    assert_eq!(first.altgr.shift, CharOrDead::Literal('\0'));
    let second = out.default_partial.overrides.get(25).unwrap();
    assert_eq!(second.altgr.shift, CharOrDead::Literal('`'));
}

#[test]
fn missing_baseline_fails_conversion() {
    let src = source(vec![(0x1e, key(Some('a'), None, None, None))], vec![]);
    let store = LayoutStore::new();
    match convert(&src, &table(), &store, &vec![]) {
        Err(ResolveError::NotFound(p)) => assert_eq!(p, "dk"),
        _ => panic!("expected NotFound"),
    }
}

#[test]
fn keys_in_baseline_chain_are_diffed() {
    let mut base = Partial::new("basic".to_string());
    base.overrides.set(38, lit('a', 'A', '\0', '\0'));
    let mut dk = Partial::new("basic".to_string());
    dk.parent = Some("latin".to_string());
    let mut store = LayoutStore::new();
    store.add("dk".to_string(), TargetLayout { default_partial: dk, partials: vec![] });
    store.add("latin".to_string(), TargetLayout { default_partial: base, partials: vec![] });
    let src = source(vec![(0x1e, key(Some('a'), Some('A'), None, None))], vec![]);
    let out = convert(&src, &table(), &store, &vec![]).ok().unwrap();
    assert!(out.default_partial.overrides.keys().is_empty());
}
