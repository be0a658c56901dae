use vstd::prelude::*;
use crate::output::{Output, OutputModel};

verus! {

/// Identifier of a physical key in the XKB model.
pub type KeyCode = u32;

/// One entry of a [`Keymap`].
pub struct KeyEntry {
    pub key: KeyCode,
    pub output: Output,
}

/// Model of a sequence of entries.
pub open spec fn entries_model(s: Seq<KeyEntry>) -> Seq<(KeyCode, OutputModel)> {
    s.map_values(|e: KeyEntry| (e.key, e.output@))
}

/// Keys strictly ascending, hence unique.
pub open spec fn ascending(s: Seq<(KeyCode, OutputModel)>) -> bool {
    forall|i: int, j: int| 0 <= i < j < s.len() ==> s[i].0 < s[j].0
}

/// The mapping that an ascending sequence of entries stands for.
pub open spec fn as_map(s: Seq<(KeyCode, OutputModel)>) -> Map<KeyCode, OutputModel> {
    Map::new(
        |k: KeyCode| exists|i: int| 0 <= i < s.len() && s[i].0 == k,
        |k: KeyCode| s[choose|i: int| 0 <= i < s.len() && s[i].0 == k].1,
    )
}

/// In an ascending sequence, the entry at `i` is what the mapping holds for its key.
pub proof fn lemma_as_map_at(s: Seq<(KeyCode, OutputModel)>, i: int)
    requires
        ascending(s),
        0 <= i < s.len(),
    ensures
        as_map(s).contains_key(s[i].0),
        as_map(s)[s[i].0] == s[i].1,
{
    let k = s[i].0;
    assert(exists|j: int| 0 <= j < s.len() && s[j].0 == k);
    let j = choose|j: int| 0 <= j < s.len() && s[j].0 == k;
    if j < i {
        assert(s[j].0 < s[i].0);
    } else if j > i {
        assert(s[i].0 < s[j].0);
    }
}

/// Extending a prefix of an ascending sequence by one entry adds that entry to its mapping.
pub proof fn lemma_as_map_extend(s: Seq<(KeyCode, OutputModel)>, i: int)
    requires
        ascending(s),
        0 <= i < s.len(),
    ensures
        as_map(s.take(i + 1)) == as_map(s.take(i)).insert(s[i].0, s[i].1),
{
    let a = s.take(i);
    let b = s.take(i + 1);
    assert(ascending(a));
    assert(ascending(b));
    assert forall|k: KeyCode| as_map(b).contains_key(k) <==> as_map(a).insert(s[i].0, s[i].1).contains_key(k) by {
        if as_map(a).contains_key(k) {
            let j = choose|j: int| 0 <= j < a.len() && a[j].0 == k;
            assert(b[j].0 == k);
        }
        if k == s[i].0 {
            assert(b[i].0 == k);
        }
        if as_map(b).contains_key(k) && k != s[i].0 {
            let j = choose|j: int| 0 <= j < b.len() && b[j].0 == k;
            assert(a[j].0 == k);
        }
    }
    assert forall|k: KeyCode| #[trigger] as_map(b).contains_key(k) implies as_map(b)[k] == as_map(a).insert(s[i].0, s[i].1)[k] by {
        let j = choose|j: int| 0 <= j < b.len() && b[j].0 == k;
        lemma_as_map_at(b, j);
        if j < i {
            assert(b[j].0 < b[i].0);
            lemma_as_map_at(a, j);
        }
    }
    assert(as_map(b) =~= as_map(a).insert(s[i].0, s[i].1));
}

/// A mapping from key codes to outputs, kept in ascending key order.
pub struct Keymap {
    entries: Vec<KeyEntry>,
}

impl View for Keymap {
    type V = Map<KeyCode, OutputModel>;

    closed spec fn view(&self) -> Map<KeyCode, OutputModel> {
        as_map(entries_model(self.entries@))
    }
}

impl Keymap {
    #[verifier::type_invariant]
    spec fn sorted(self) -> bool {
        ascending(entries_model(self.entries@))
    }

    /// The empty mapping.
    pub fn new() -> (r: Keymap)
        ensures
            r@ == Map::<KeyCode, OutputModel>::empty(),
    {
        let r = Keymap { entries: Vec::new() };
        assert(r@ =~= Map::<KeyCode, OutputModel>::empty());
        r
    }

    /// The output mapped to `key`, if any.
    pub fn get(&self, key: KeyCode) -> (r: Option<&Output>)
        ensures
            match r {
                Some(o) => self@.contains_key(key) && o@ == self@[key],
                None => !self@.contains_key(key),
            },
    {
        proof {
            use_type_invariant(self);
        }
        let ghost s = entries_model(self.entries@);
        let mut i: usize = 0;
        while i < self.entries.len()
            invariant
                s == entries_model(self.entries@),
                ascending(s),
                0 <= i <= self.entries.len(),
                forall|j: int| 0 <= j < i ==> s[j].0 != key,
            decreases self.entries.len() - i,
        {
            if self.entries[i].key == key {
                proof {
                    lemma_as_map_at(s, i as int);
                }
                return Some(&self.entries[i].output);
            }
            i = i + 1;
        }
        None
    }

    /// Maps `key` to `output`, replacing what it was mapped to.
    pub fn set(&mut self, key: KeyCode, output: Output)
        ensures
            final(self)@ == old(self)@.insert(key, output@),
    {
        proof {
            use_type_invariant(&*self);
        }
        let ghost s = entries_model(self.entries@);
        let ghost m = output@;
        let mut v: Vec<KeyEntry> = Vec::new();
        std::mem::swap(&mut v, &mut self.entries);
        let mut i: usize = 0;
        while i < v.len() && v[i].key < key
            invariant
                s == entries_model(v@),
                ascending(s),
                0 <= i <= v.len(),
                forall|j: int| 0 <= j < i ==> s[j].0 < key,
            decreases v.len() - i,
        {
            i = i + 1;
        }
        if i < v.len() && v[i].key == key {
            assert(s[i as int].0 == key);
            v.set(i, KeyEntry { key, output });
            let ghost t = entries_model(v@);
            assert(t =~= s.update(i as int, (key, m)));
            assert forall|a: int| 0 <= a < t.len() implies t[a].0 == s[a].0 by {}
            assert(ascending(t));
            assert(as_map(t) =~= as_map(s).insert(key, m)) by {
                assert forall|k: KeyCode| as_map(t).contains_key(k) <==> as_map(s).insert(key, m).contains_key(k) by {
                    if as_map(s).contains_key(k) {
                        let j = choose|j: int| 0 <= j < s.len() && s[j].0 == k;
                        assert(t[j].0 == k);
                    }
                    if as_map(t).contains_key(k) {
                        let j = choose|j: int| 0 <= j < t.len() && t[j].0 == k;
                        assert(s[j].0 == k);
                    }
                }
                assert forall|k: KeyCode| #[trigger] as_map(t).contains_key(k) implies as_map(t)[k] == as_map(s).insert(key, m)[k] by {
                    let j = choose|j: int| 0 <= j < t.len() && t[j].0 == k;
                    lemma_as_map_at(t, j);
                    if j != i {
                        lemma_as_map_at(s, j);
                    }
                }
            }
        } else {
            v.insert(i, KeyEntry { key, output });
            let ghost t = entries_model(v@);
            assert(t =~= s.insert(i as int, (key, m)));
            assert(ascending(t)) by {
                assert forall|a: int, b: int| 0 <= a < b < t.len() implies t[a].0 < t[b].0 by {
                    if b > i as int && a < i as int {
                        assert(s[a].0 < key);
                    }
                    if a == i as int && b > i as int && i + 1 < b {
                        assert(s[i as int].0 < s[b - 1].0);
                    }
                }
            }
            assert(as_map(t) =~= as_map(s).insert(key, m)) by {
                assert forall|k: KeyCode| as_map(t).contains_key(k) <==> as_map(s).insert(key, m).contains_key(k) by {
                    if as_map(s).contains_key(k) {
                        let j = choose|j: int| 0 <= j < s.len() && s[j].0 == k;
                        if j < i {
                            assert(t[j].0 == k);
                        } else {
                            assert(t[j + 1].0 == k);
                        }
                    }
                    if k == key {
                        assert(t[i as int].0 == k);
                    }
                    if as_map(t).contains_key(k) && k != key {
                        let j = choose|j: int| 0 <= j < t.len() && t[j].0 == k;
                        if j < i {
                            assert(s[j].0 == k);
                        } else {
                            assert(s[j - 1].0 == k);
                        }
                    }
                }
                assert forall|k: KeyCode| #[trigger] as_map(t).contains_key(k) implies as_map(t)[k] == as_map(s).insert(key, m)[k] by {
                    let j = choose|j: int| 0 <= j < t.len() && t[j].0 == k;
                    lemma_as_map_at(t, j);
                    if j < i {
                        assert(t[j] == s[j]);
                        assert(t[j].0 < t[i as int].0);
                        lemma_as_map_at(s, j);
                    } else if j > i {
                        assert(t[j] == s[j - 1]);
                        assert(t[i as int].0 < t[j].0);
                        lemma_as_map_at(s, j - 1);
                    }
                }
            }
        }
        self.entries = v;
    }

    /// Lays every entry of `top` over this mapping: keys of `top` take its
    /// output, other keys keep theirs.
    pub fn overlay(&mut self, top: &Keymap)
        ensures
            final(self)@ == old(self)@.union_prefer_right(top@),
    {
        proof {
            use_type_invariant(top);
        }
        let ghost base = self@;
        let ghost s = entries_model(top.entries@);
        let mut i: usize = 0;
        while i < top.entries.len()
            invariant
                s == entries_model(top.entries@),
                ascending(s),
                0 <= i <= top.entries.len(),
                self@ == base.union_prefer_right(as_map(s.take(i as int))),
            decreases top.entries.len() - i,
        {
            let e = &top.entries[i];
            self.set(e.key, e.output.duplicate());
            proof {
                lemma_as_map_extend(s, i as int);
                assert(base.union_prefer_right(as_map(s.take(i + 1))) =~= base.union_prefer_right(
                    as_map(s.take(i as int)),
                ).insert(s[i as int].0, s[i as int].1));
            }
            i = i + 1;
        }
        proof {
            assert(s.take(i as int) =~= s);
        }
    }

    /// The mapped keys, in ascending order.
    pub fn keys(&self) -> (r: Vec<KeyCode>)
        ensures
            r@.to_set() == self@.dom(),
            forall|i: int, j: int| 0 <= i < j < r@.len() ==> r@[i] < r@[j],
    {
        proof {
            use_type_invariant(self);
        }
        let ghost s = entries_model(self.entries@);
        let mut r: Vec<KeyCode> = Vec::new();
        let mut i: usize = 0;
        while i < self.entries.len()
            invariant
                s == entries_model(self.entries@),
                ascending(s),
                0 <= i <= self.entries.len(),
                r@.len() == i,
                forall|j: int| 0 <= j < i ==> r@[j] == s[j].0,
            decreases self.entries.len() - i,
        {
            r.push(self.entries[i].key);
            i = i + 1;
        }
        proof {
            assert forall|k: KeyCode| r@.to_set().contains(k) <==> self@.dom().contains(k) by {
                if r@.to_set().contains(k) {
                    let j = choose|j: int| 0 <= j < r@.len() && r@[j] == k;
                    assert(s[j].0 == k);
                }
                if self@.dom().contains(k) {
                    let j = choose|j: int| 0 <= j < s.len() && s[j].0 == k;
                    assert(r@[j] == k);
                }
            }
            assert(r@.to_set() =~= self@.dom());
        }
        r
    }
}

} // verus!
