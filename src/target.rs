use vstd::prelude::*;
use vstd::string::StringExecFns;
use crate::keymap::{KeyCode, Keymap};
use crate::output::OutputModel;

verus! {

/// Model of an optional string.
pub open spec fn opt_text(o: Option<String>) -> Option<Seq<char>> {
    match o {
        Some(s) => Some(s@),
        None => None,
    }
}

/// A named group of key overrides in an XKB symbols file, optionally built
/// on top of another partial that it names by reference (`path(part)`).
pub struct Partial {
    pub name: String,
    /// Reference to the partial this one extends.
    pub parent: Option<String>,
    /// Human-readable layout name (`name[Group1]`).
    pub display_name: Option<String>,
    pub overrides: Keymap,
}

/// Mathematical model of [`Partial`].
pub ghost struct PartialModel {
    pub name: Seq<char>,
    pub parent: Option<Seq<char>>,
    pub display_name: Option<Seq<char>>,
    pub overrides: Map<KeyCode, OutputModel>,
}

impl View for Partial {
    type V = PartialModel;

    open spec fn view(&self) -> PartialModel {
        PartialModel {
            name: self.name@,
            parent: opt_text(self.parent),
            display_name: opt_text(self.display_name),
            overrides: self.overrides@,
        }
    }
}

impl Partial {
    /// A partial with the given name, no parent, no display name and no overrides.
    pub fn new(name: String) -> (r: Partial)
        ensures
            r@ == (PartialModel {
                name: name@,
                parent: None,
                display_name: None,
                overrides: Map::empty(),
            }),
    {
        Partial { name, parent: None, display_name: None, overrides: Keymap::new() }
    }
}

/// An XKB symbols document: its default partial and the further named partials.
pub struct TargetLayout {
    pub default_partial: Partial,
    pub partials: Vec<Partial>,
}

/// Mathematical model of [`TargetLayout`].
pub ghost struct LayoutModel {
    pub default_partial: PartialModel,
    pub partials: Seq<PartialModel>,
}

impl View for TargetLayout {
    type V = LayoutModel;

    open spec fn view(&self) -> LayoutModel {
        LayoutModel {
            default_partial: self.default_partial@,
            partials: self.partials@.map_values(|p: Partial| p@),
        }
    }
}

/// The first partial named `name` in `ps` at or after position `i`.
pub open spec fn first_named(ps: Seq<PartialModel>, name: Seq<char>, i: int) -> Option<PartialModel>
    decreases ps.len() - i,
{
    if i < 0 || i >= ps.len() {
        None
    } else if ps[i].name == name {
        Some(ps[i])
    } else {
        first_named(ps, name, i + 1)
    }
}

/// The partial that `name` designates in a document: the default partial if
/// it bears the name, else the first other partial that does.
pub open spec fn find_partial(l: LayoutModel, name: Seq<char>) -> Option<PartialModel> {
    if l.default_partial.name == name {
        Some(l.default_partial)
    } else {
        first_named(l.partials, name, 0)
    }
}

impl TargetLayout {
    /// The partial named `name`, if the document has one.
    pub fn get_partial(&self, name: &str) -> (r: Option<&Partial>)
        ensures
            match r {
                Some(p) => find_partial(self@, name@) == Some(p@),
                None => find_partial(self@, name@).is_none(),
            },
    {
        let wanted = String::from_str(name);
        if self.default_partial.name.eq(&wanted) {
            return Some(&self.default_partial);
        }
        let ghost ps = self@.partials;
        let mut i: usize = 0;
        while i < self.partials.len()
            invariant
                ps == self@.partials,
                wanted@ == name@,
                self.default_partial.name@ != name@,
                0 <= i <= self.partials.len(),
                first_named(ps, name@, 0) == first_named(ps, name@, i as int),
            decreases self.partials.len() - i,
        {
            if self.partials[i].name.eq(&wanted) {
                assert(ps[i as int] == self.partials@[i as int]@);
                return Some(&self.partials[i]);
            }
            i = i + 1;
        }
        None
    }
}

} // verus!
