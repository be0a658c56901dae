use vstd::prelude::*;
use vstd::string::StringExecFns;
use crate::deadkey::{classified, classify, classify_trimmed, is_trigger, trimmed};
use crate::keymap::{KeyCode, Keymap};
use crate::output::{Character, CharOrDead, Output, OutputModel, Symbol};
use crate::resolve::{resolve, resolved, LayoutStore, ResolveError, ResolveFault};
use crate::reference::default_part;
use crate::target::{Partial, PartialModel, TargetLayout, LayoutModel};

verus! {

/// Identifier of a physical key in the Windows model.
pub type ScanCode = u32;

/// The characters a Windows key produces on its four levels; `None` where
/// nothing is assigned.
#[derive(Clone, Copy, PartialEq, Eq, Debug)]
pub struct SourceKeyEntry {
    pub normal: Option<char>,
    pub shift: Option<char>,
    pub ctrl_alt: Option<char>,
    pub shift_ctrl_alt: Option<char>,
}

/// A parsed Windows layout: its name, its keys by scan code, and the
/// characters that its dead-key tables start from.
pub struct SourceLayout {
    pub name: String,
    pub entries: Vec<(ScanCode, SourceKeyEntry)>,
    pub deadkey_triggers: Vec<char>,
}

/// The fixed table that maps scan codes to key codes.
pub struct KeyTable {
    pub pairs: Vec<(ScanCode, KeyCode)>,
}

/// The key code that the first pair for `sc` at or after `i` gives.
pub open spec fn translated_from(pairs: Seq<(ScanCode, KeyCode)>, sc: ScanCode, i: int) -> Option<KeyCode>
    decreases pairs.len() - i,
{
    if i < 0 || i >= pairs.len() {
        None
    } else if pairs[i].0 == sc {
        Some(pairs[i].1)
    } else {
        translated_from(pairs, sc, i + 1)
    }
}

/// The key code for `sc`, if the table has one.
pub open spec fn translated(pairs: Seq<(ScanCode, KeyCode)>, sc: ScanCode) -> Option<KeyCode> {
    translated_from(pairs, sc, 0)
}

impl KeyTable {
    /// The key code for `sc`, or `None` for an unmapped scan code.
    pub fn translate(&self, sc: ScanCode) -> (r: Option<KeyCode>)
        ensures
            r == translated(self.pairs@, sc),
    {
        let mut i: usize = 0;
        while i < self.pairs.len()
            invariant
                0 <= i <= self.pairs.len(),
                translated(self.pairs@, sc) == translated_from(self.pairs@, sc, i as int),
            decreases self.pairs.len() - i,
        {
            if self.pairs[i].0 == sc {
                return Some(self.pairs[i].1);
            }
            i = i + 1;
        }
        None
    }
}

/// The character of a slot, `'\0'` where none is assigned.
pub open spec fn or_nul(c: Option<char>) -> char {
    match c {
        Some(c) => c,
        None => '\0',
    }
}

/// The answer at `pos`, trimmed; empty when the answers have run out.
pub open spec fn answer_at(answers: Seq<Seq<char>>, pos: int) -> Seq<char> {
    if 0 <= pos < answers.len() {
        trimmed(answers[pos])
    } else {
        Seq::empty()
    }
}

/// One slot: a trigger character consumes the next answer (once the
/// answers have run out, each counts as empty), any other character
/// consumes none.
pub open spec fn slot(c: char, triggers: Seq<char>, answers: Seq<Seq<char>>, pos: int) -> (Symbol, int) {
    if triggers.contains(c) {
        (classified(c, triggers, answer_at(answers, pos)), if pos < answers.len() { pos + 1 } else { pos })
    } else {
        (Symbol::Literal(c), pos)
    }
}

/// The output of one key, slots taken in the order normal, shift, AltGr,
/// Shift+AltGr, and the position of the next unused answer.
pub open spec fn key_output(e: SourceKeyEntry, triggers: Seq<char>, answers: Seq<Seq<char>>, pos: int) -> (OutputModel, int) {
    let (a, pa) = slot(or_nul(e.normal), triggers, answers, pos);
    let (b, pb) = slot(or_nul(e.shift), triggers, answers, pa);
    let (c, pc) = slot(or_nul(e.ctrl_alt), triggers, answers, pb);
    let (d, pd) = slot(or_nul(e.shift_ctrl_alt), triggers, answers, pc);
    (OutputModel { normal: a, shift: b, altgr_normal: c, altgr_shift: d }, pd)
}

/// The overrides emitted for `entries` against `baseline`, and the position
/// of the next unused answer. An unmapped scan code is passed over; an output
/// equal to the baseline's for its key is not emitted.
pub open spec fn converted(
    entries: Seq<(ScanCode, SourceKeyEntry)>,
    table: Seq<(ScanCode, KeyCode)>,
    triggers: Seq<char>,
    baseline: Map<KeyCode, OutputModel>,
    answers: Seq<Seq<char>>,
) -> (Map<KeyCode, OutputModel>, int)
    decreases entries.len(),
{
    if entries.len() == 0 {
        (Map::empty(), 0)
    } else {
        let (m, pos) = converted(entries.drop_last(), table, triggers, baseline, answers);
        let (sc, e) = entries.last();
        match translated(table, sc) {
            None => (m, pos),
            Some(k) => {
                let (out, next) = key_output(e, triggers, answers, pos);
                if baseline.contains_key(k) && baseline[k] == out {
                    (m, next)
                } else {
                    (m.insert(k, out), next)
                }
            },
        }
    }
}

/// The reference every converted layout builds on.
pub open spec fn base_reference() -> Seq<char> {
    seq!['d', 'k', '(', 'b', 'a', 's', 'i', 'c', ')']
}

/// Classifies one slot, consuming an answer if `c` is a trigger.
fn convert_slot(c: Option<char>, triggers: &Vec<char>, answers: &Vec<String>, pos: &mut usize) -> (r: CharOrDead)
    requires
        *old(pos) <= answers.len(),
    ensures
        (r@, *final(pos) as int) == slot(or_nul(c), triggers@, answers@.map_values(|a: String| a@), *old(pos) as int),
        *final(pos) <= answers.len(),
{
    let ch = match c {
        Some(ch) => ch,
        None => '\0',
    };
    if is_trigger(ch, triggers) {
        let ghost an = answers@.map_values(|a: String| a@);
        let r = if *pos < answers.len() {
            assert(an[*pos as int] == answers@[*pos as int]@);
            let r = classify(ch, triggers, answers[*pos].as_str());
            *pos = *pos + 1;
            r
        } else {
            let none = "";
            proof {
                reveal_strlit("");
                assert(none@ =~= Seq::<char>::empty());
            }
            classify_trimmed(ch, triggers, none)
        };
        r
    } else {
        CharOrDead::Literal(ch)
    }
}

/// The output of one key, consuming answers for its trigger slots.
fn convert_output(e: SourceKeyEntry, triggers: &Vec<char>, answers: &Vec<String>, pos: &mut usize) -> (r: Output)
    requires
        *old(pos) <= answers.len(),
    ensures
        (r@, *final(pos) as int) == key_output(e, triggers@, answers@.map_values(|a: String| a@), *old(pos) as int),
        *final(pos) <= answers.len(),
{
    let a = convert_slot(e.normal, triggers, answers, pos);
    let b = convert_slot(e.shift, triggers, answers, pos);
    let c = convert_slot(e.ctrl_alt, triggers, answers, pos);
    let d = convert_slot(e.shift_ctrl_alt, triggers, answers, pos);
    Output { normal: Character { normal: a, shift: b }, altgr: Character { normal: c, shift: d } }
}

/// The overrides that converting `source` against `baseline` emits. Each
/// answer in `answers` is the operator's reply for one trigger slot, in the
/// order the slots are met; replies that are missing count as empty.
pub fn convert_keys(source: &SourceLayout, table: &KeyTable, baseline: &Keymap, answers: &Vec<String>) -> (r: Keymap)
    ensures
        r@ == converted(source.entries@, table.pairs@, source.deadkey_triggers@, baseline@, answers@.map_values(|a: String| a@)).0,
{
    let ghost an = answers@.map_values(|a: String| a@);
    let ghost es = source.entries@;
    let mut keys = Keymap::new();
    let mut pos: usize = 0;
    let mut i: usize = 0;
    while i < source.entries.len()
        invariant
            es == source.entries@,
            an == answers@.map_values(|a: String| a@),
            0 <= i <= es.len(),
            pos <= answers.len(),
            (keys@, pos as int) == converted(es.take(i as int), table.pairs@, source.deadkey_triggers@, baseline@, an),
        decreases es.len() - i,
    {
        proof {
            assert(es.take(i + 1).drop_last() =~= es.take(i as int));
        }
        let (sc, e) = source.entries[i];
        match table.translate(sc) {
            None => {},
            Some(k) => {
                let out = convert_output(e, &source.deadkey_triggers, answers, &mut pos);
                let same = match baseline.get(k) {
                    Some(b) => b.same_as(&out),
                    None => false,
                };
                if !same {
                    keys.set(k, out);
                }
            },
        }
        i = i + 1;
    }
    proof {
        assert(es.take(i as int) =~= es);
    }
    keys
}

/// The document that converting a layout produces: one default partial,
/// named `basic`, built on `dk(basic)`, titled with the layout's name and
/// holding the emitted overrides.
pub open spec fn converted_layout(
    source: &SourceLayout,
    table: &KeyTable,
    baseline: Map<KeyCode, OutputModel>,
    answers: Seq<Seq<char>>,
) -> LayoutModel {
    LayoutModel {
        default_partial: PartialModel {
            name: default_part(),
            parent: Some(base_reference()),
            display_name: Some(source.name@),
            overrides: converted(source.entries@, table.pairs@, source.deadkey_triggers@, baseline, answers).0,
        },
        partials: Seq::empty(),
    }
}

/// Converts `source` against an already resolved baseline.
pub fn convert_with_baseline(source: &SourceLayout, table: &KeyTable, baseline: &Keymap, answers: &Vec<String>) -> (r: TargetLayout)
    ensures
        r@ == converted_layout(source, table, baseline@, answers@.map_values(|a: String| a@)),
{
    let mut default_partial = Partial::new(String::from_str("basic"));
    default_partial.parent = Some(String::from_str("dk(basic)"));
    default_partial.display_name = Some(source.name.clone());
    default_partial.overrides = convert_keys(source, table, baseline, answers);
    let r = TargetLayout { default_partial, partials: Vec::new() };
    proof {
        reveal_strlit("basic");
        reveal_strlit("dk(basic)");
        assert(r@.default_partial.name =~= default_part());
        assert(r@.default_partial.parent->0 =~= base_reference());
        assert(r@.partials =~= Seq::<PartialModel>::empty());
    }
    r
}

/// Converts `source` into an XKB document whose overrides differ from the
/// mapping that `dk(basic)` resolves to in `store`; fails as that
/// resolution fails.
pub fn convert(source: &SourceLayout, table: &KeyTable, store: &LayoutStore, answers: &Vec<String>) -> (r: Result<TargetLayout, ResolveError>)
    ensures
        match resolved(store@, base_reference()) {
            Ok(b) => r is Ok && r->Ok_0@ == converted_layout(source, table, b, answers@.map_values(|a: String| a@)),
            Err(f) => r is Err && r->Err_0@ == f,
        },
{
    let baseline = resolve(store, "dk(basic)");
    proof {
        reveal_strlit("dk(basic)");
        assert("dk(basic)"@ =~= base_reference());
    }
    match baseline {
        Ok(b) => Ok(convert_with_baseline(source, table, &b, answers)),
        Err(e) => Err(e),
    }
}

/// `c` alone if it is a trigger, else nothing.
pub open spec fn pick(c: char, triggers: Seq<char>) -> Seq<char> {
    if triggers.contains(c) {
        seq![c]
    } else {
        Seq::empty()
    }
}

/// The trigger characters of one key that call for an answer, in slot order.
pub open spec fn key_prompts(e: SourceKeyEntry, triggers: Seq<char>) -> Seq<char> {
    pick(or_nul(e.normal), triggers) + pick(or_nul(e.shift), triggers) + pick(or_nul(e.ctrl_alt), triggers)
        + pick(or_nul(e.shift_ctrl_alt), triggers)
}

/// Appends the slot's character if it is a trigger.
fn push_if_trigger(r: &mut Vec<char>, c: Option<char>, triggers: &Vec<char>)
    ensures
        final(r)@ == old(r)@ + pick(or_nul(c), triggers@),
{
    let ch = match c {
        Some(ch) => ch,
        None => '\0',
    };
    if is_trigger(ch, triggers) {
        r.push(ch);
    }
    assert(final(r)@ =~= old(r)@ + pick(or_nul(c), triggers@));
}

/// The trigger characters that converting `entries` asks about, in order;
/// keys with an unmapped scan code ask nothing.
pub open spec fn prompts(entries: Seq<(ScanCode, SourceKeyEntry)>, table: Seq<(ScanCode, KeyCode)>, triggers: Seq<char>) -> Seq<char>
    decreases entries.len(),
{
    if entries.len() == 0 {
        Seq::empty()
    } else {
        let rest = prompts(entries.drop_last(), table, triggers);
        match translated(table, entries.last().0) {
            None => rest,
            Some(_) => rest + key_prompts(entries.last().1, triggers),
        }
    }
}

/// The characters the operator is asked about, one per answer that a
/// conversion consumes, in order.
pub fn pending_prompts(source: &SourceLayout, table: &KeyTable) -> (r: Vec<char>)
    ensures
        r@ == prompts(source.entries@, table.pairs@, source.deadkey_triggers@),
{
    let ghost es = source.entries@;
    let ghost tr = source.deadkey_triggers@;
    let mut r: Vec<char> = Vec::new();
    let mut i: usize = 0;
    while i < source.entries.len()
        invariant
            es == source.entries@,
            tr == source.deadkey_triggers@,
            0 <= i <= es.len(),
            r@ == prompts(es.take(i as int), table.pairs@, tr),
        decreases es.len() - i,
    {
        proof {
            assert(es.take(i + 1).drop_last() =~= es.take(i as int));
        }
        let (sc, e) = source.entries[i];
        if table.translate(sc).is_some() {
            let ghost before = r@;
            push_if_trigger(&mut r, e.normal, &source.deadkey_triggers);
            push_if_trigger(&mut r, e.shift, &source.deadkey_triggers);
            push_if_trigger(&mut r, e.ctrl_alt, &source.deadkey_triggers);
            push_if_trigger(&mut r, e.shift_ctrl_alt, &source.deadkey_triggers);
            assert(r@ =~= before + key_prompts(e, tr));
        }
        i = i + 1;
    }
    proof {
        assert(es.take(i as int) =~= es);
    }
    r
}

/// Every override that a conversion emits differs from the baseline's
/// output for its key, or the baseline lacks the key.
pub proof fn law_emitted_differ_from_baseline(
    entries: Seq<(ScanCode, SourceKeyEntry)>,
    table: Seq<(ScanCode, KeyCode)>,
    triggers: Seq<char>,
    baseline: Map<KeyCode, OutputModel>,
    answers: Seq<Seq<char>>,
)
    ensures
        forall|k: KeyCode| #[trigger] converted(entries, table, triggers, baseline, answers).0.contains_key(k) ==> !baseline.contains_key(k)
            || baseline[k] != converted(entries, table, triggers, baseline, answers).0[k],
    decreases entries.len(),
{
    if entries.len() > 0 {
        let rest = entries.drop_last();
        law_emitted_differ_from_baseline(rest, table, triggers, baseline, answers);
        let (m, pos) = converted(rest, table, triggers, baseline, answers);
        let r = converted(entries, table, triggers, baseline, answers).0;
        assert forall|k: KeyCode| #[trigger] r.contains_key(k) implies !baseline.contains_key(k) || baseline[k] != r[k] by {
            match translated(table, entries.last().0) {
                None => {},
                Some(k0) => {
                    if k != k0 {
                        assert(m.contains_key(k));
                    }
                },
            }
        }
    }
}

/// An entry whose scan code has no key code contributes nothing: the
/// conversion is the same as without it, so the entries after it are
/// converted as if it were absent.
pub proof fn law_unmapped_entry_skipped(
    entries: Seq<(ScanCode, SourceKeyEntry)>,
    table: Seq<(ScanCode, KeyCode)>,
    triggers: Seq<char>,
    baseline: Map<KeyCode, OutputModel>,
    answers: Seq<Seq<char>>,
    i: int,
)
    requires
        0 <= i < entries.len(),
        translated(table, entries[i].0) is None,
    ensures
        converted(entries, table, triggers, baseline, answers) == converted(entries.remove(i), table, triggers, baseline, answers),
        prompts(entries, table, triggers) == prompts(entries.remove(i), table, triggers),
    decreases entries.len(),
{
    if i == entries.len() - 1 {
        assert(entries.remove(i) =~= entries.drop_last());
    } else {
        assert(entries.remove(i).drop_last() =~= entries.drop_last().remove(i));
        assert(entries.remove(i).last() == entries.last());
        law_unmapped_entry_skipped(entries.drop_last(), table, triggers, baseline, answers, i);
    }
}

} // verus!
